//! Requests for files: the query, the choice of the projection and the
//! outcome of a request that failed.

use crate::projection::{Projection, ProjectionError, Resource};
use crate::registry::ProjectionRegistry;
use crate::workspace::WorkspaceError;
use std::sync::Arc;
use vstd::prelude::*;

verus! {

/// What a request may ask for beside the path.
#[derive(Debug, Clone)]
pub struct FileQuery {
    /// The id of the projection to use; the best one where none is named.
    pub projection: Option<String>,
}

/// How a request ends.
#[derive(Debug, Clone, Copy, PartialEq, Eq)]
pub enum Status {
    Success,
    NoContent,
    BadRequest,
    Forbidden,
    NotFound,
    InternalError,
}

impl Status {
    /// The number of the status.
    pub open spec fn number(self) -> nat {
        match self {
            Status::Success => 200,
            Status::NoContent => 204,
            Status::BadRequest => 400,
            Status::Forbidden => 403,
            Status::NotFound => 404,
            Status::InternalError => 500,
        }
    }

    /// The number of the status.
    pub fn code(self) -> (n: u16)
        ensures
            n == self.number(),
    {
        match self {
            Status::Success => 200,
            Status::NoContent => 204,
            Status::BadRequest => 400,
            Status::Forbidden => 403,
            Status::NotFound => 404,
            Status::InternalError => 500,
        }
    }
}

/// Why a request failed, by the step that failed.
#[derive(Debug, Clone)]
pub enum RequestError {
    /// The path could not be resolved inside the workspace.
    Resolve(WorkspaceError),
    /// The entry could not be examined.
    Stat(WorkspaceError),
    /// The query names a projection that is not registered.
    UnknownProjection(String),
    /// No registered projection applies to the resource.
    NoProjection,
    /// The projection failed.
    Render(ProjectionError),
    /// The output could not be encoded; holds the encoder's message.
    Encode(String),
    /// The file could not be read.
    Read(WorkspaceError),
    /// The file could not be written.
    Write(WorkspaceError),
}

impl RequestError {
    /// The status that reports the failure: a request that cannot be
    /// served as it was made is a bad request, an entry or a projection
    /// that is not there is not found, and a failure behind the request
    /// is an internal error.
    pub open spec fn outcome(&self) -> Status {
        match self {
            RequestError::Resolve(_) => Status::BadRequest,
            RequestError::Stat(e) => if e is NotFound {
                Status::NotFound
            } else {
                Status::InternalError
            },
            RequestError::UnknownProjection(_) => Status::BadRequest,
            RequestError::NoProjection => Status::NotFound,
            RequestError::Render(_) => Status::InternalError,
            RequestError::Encode(_) => Status::InternalError,
            RequestError::Read(_) => Status::BadRequest,
            RequestError::Write(_) => Status::BadRequest,
        }
    }

    /// The status that reports the failure.
    pub fn status(&self) -> (s: Status)
        ensures
            s == self.outcome(),
    {
        match self {
            RequestError::Resolve(_) => Status::BadRequest,
            RequestError::Stat(e) => match e {
                WorkspaceError::NotFound(_) => Status::NotFound,
                _ => Status::InternalError,
            },
            RequestError::UnknownProjection(_) => Status::BadRequest,
            RequestError::NoProjection => Status::NotFound,
            RequestError::Render(_) => Status::InternalError,
            RequestError::Encode(_) => Status::InternalError,
            RequestError::Read(_) => Status::BadRequest,
            RequestError::Write(_) => Status::BadRequest,
        }
    }

    /// The text of the message.
    pub open spec fn message_text(&self) -> Seq<char> {
        match self {
            RequestError::Resolve(e) => e.message_text(),
            RequestError::Stat(e) => match e {
                WorkspaceError::NotFound(_) => "not found"@,
                WorkspaceError::PathTraversal(_) => e.message_text(),
                WorkspaceError::Decode(d) => d@,
                WorkspaceError::Io(d) => d@,
            },
            RequestError::UnknownProjection(id) => "unknown projection: "@ + id@,
            RequestError::NoProjection => "no projection available"@,
            RequestError::Render(e) => e.message_text(),
            RequestError::Encode(m) => m@,
            RequestError::Read(e) => e.message_text(),
            RequestError::Write(e) => e.message_text(),
        }
    }

    /// A message for people.
    pub fn message(&self) -> (m: String)
        ensures
            m@ == self.message_text(),
    {
        match self {
            RequestError::Resolve(e) => e.message(),
            RequestError::Stat(e) => match e {
                WorkspaceError::NotFound(_) => "not found".to_owned(),
                WorkspaceError::PathTraversal(_) => e.message(),
                WorkspaceError::Decode(d) => d.clone(),
                WorkspaceError::Io(d) => d.clone(),
            },
            RequestError::UnknownProjection(id) => {
                let mut m = "unknown projection: ".to_owned();
                m.append(id.as_str());
                m
            },
            RequestError::NoProjection => "no projection available".to_owned(),
            RequestError::Render(e) => e.message(),
            RequestError::Encode(m) => m.clone(),
            RequestError::Read(e) => e.message(),
            RequestError::Write(e) => e.message(),
        }
    }
}

/// Chooses the projection that answers a request: the one that the query
/// names, which must be registered, or else the best one for the
/// resource, of which there must be one.
pub fn select<'a>(registry: &'a ProjectionRegistry, resource: &Resource, query: &FileQuery) -> (r:
    Result<&'a Arc<dyn Projection>, RequestError>)
    ensures
        match query.projection {
            Some(id) => if registry.has(id@) {
                r == Ok::<&Arc<dyn Projection>, RequestError>(&registry.entry(id@).projection)
            } else {
                r matches Err(RequestError::UnknownProjection(named)) && named@ == id@
            },
            None => match r {
                Ok(p) => exists|i: int|
                    0 <= i < registry.entries().len() && *p == (
                    #[trigger] registry.entries()[i]).projection,
                Err(e) => e is NoProjection,
            },
        },
{
    match &query.projection {
        Some(id) => match registry.get(id.as_str()) {
            Some(p) => Ok(p),
            None => Err(RequestError::UnknownProjection(id.clone())),
        },
        None => match registry.best_for(resource) {
            Some(p) => Ok(p),
            None => Err(RequestError::NoProjection),
        },
    }
}

} // verus!
