//! What a projection is: the resource it looks at, the score it gives, what
//! it asks of the workspace and what it hands back.

use crate::paths::{extension, extension_of};
use crate::text::unicode_lowercase;
use crate::workspace::{DirEntry, WorkspaceError};
use vstd::prelude::*;

verus! {

/// The extension that a resource carries: none for a directory, and for a
/// file the lowercase form of its path's extension.
pub open spec fn resource_extension(path: Seq<char>, is_dir: bool) -> Option<Seq<char>> {
    if is_dir {
        None
    } else {
        match extension(path) {
            Some(e) => Some(unicode_lowercase(e)),
            None => None,
        }
    }
}

/// A resource that a projection operates on.
#[derive(Debug, Clone)]
pub struct Resource {
    /// Path relative to the workspace root, separated by `/`.
    pub path: String,
    /// Whether this resource is a directory.
    pub is_dir: bool,
    /// File extension in lowercase, without the dot, if any.
    pub extension: Option<String>,
}

impl Resource {
    /// The extension as plain text.
    pub open spec fn extension_text(&self) -> Option<Seq<char>> {
        match self.extension {
            Some(e) => Some(e@),
            None => None,
        }
    }

    /// Describes the entry at `path`. Whether it is a directory is the
    /// caller's knowledge; the extension is read from the path.
    pub fn new(path: String, is_dir: bool) -> (r: Resource)
        ensures
            r.path@ == path@,
            r.is_dir == is_dir,
            r.extension_text() == resource_extension(path@, is_dir),
    {
        let extension = if is_dir {
            None
        } else {
            match extension_of(path.as_str()) {
                Some(e) => Some(e.as_str().to_lowercase()),
                None => None,
            }
        };
        Resource { path, is_dir, extension }
    }
}

/// How well a projection handles a resource, in thousandths: 0 is not at
/// all, 1000 is perfectly.
#[derive(Debug, Clone, Copy, PartialEq, Eq)]
pub struct Confidence {
    permille: u16,
}

impl Confidence {
    #[verifier::type_invariant]
    spec fn in_range(self) -> bool {
        self.permille <= 1000
    }

    /// The score in thousandths.
    pub closed spec fn value(self) -> nat {
        self.permille as nat
    }

    /// The score of `n` thousandths; more than 1000 counts as 1000.
    pub fn from_permille(n: u16) -> (c: Confidence)
        ensures
            c.value() == if n <= 1000 {
                n as nat
            } else {
                1000
            },
    {
        if n <= 1000 {
            Confidence { permille: n }
        } else {
            Confidence { permille: 1000 }
        }
    }

    /// The score in thousandths, at most 1000.
    pub fn permille(self) -> (n: u16)
        ensures
            n == self.value(),
            n <= 1000,
    {
        proof {
            use_type_invariant(self);
        }
        self.permille
    }

    /// Whether the projection applies at all.
    pub fn is_match(self) -> (b: bool)
        ensures
            b == (self.value() > 0),
    {
        self.permille > 0
    }
}

/// Why a projection failed.
#[derive(Debug, Clone)]
pub enum ProjectionError {
    /// The workspace refused or failed.
    Workspace(WorkspaceError),
    /// The projection cannot handle what it was given.
    Unsupported,
    /// Anything else, with its message.
    Other(String),
}

impl ProjectionError {
    /// The text of the message.
    pub open spec fn message_text(&self) -> Seq<char> {
        match self {
            ProjectionError::Workspace(e) => "workspace error: "@ + e.message_text(),
            ProjectionError::Unsupported => "unsupported resource"@,
            ProjectionError::Other(m) => m@,
        }
    }

    /// A message for people.
    pub fn message(&self) -> (m: String)
        ensures
            m@ == self.message_text(),
    {
        match self {
            ProjectionError::Workspace(e) => {
                let mut m = "workspace error: ".to_owned();
                let inner = e.message();
                m.append(inner.as_str());
                m
            },
            ProjectionError::Unsupported => "unsupported resource".to_owned(),
            ProjectionError::Other(text) => text.clone(),
        }
    }
}

impl From<WorkspaceError> for ProjectionError {
    fn from(e: WorkspaceError) -> (r: ProjectionError) {
        ProjectionError::Workspace(e)
    }
}

impl vstd::std_specs::convert::FromSpecImpl<WorkspaceError> for ProjectionError {
    open spec fn obeys_from_spec() -> bool {
        true
    }

    open spec fn from_spec(e: WorkspaceError) -> ProjectionError {
        ProjectionError::Workspace(e)
    }
}

/// What a projection needs from the workspace before it can render.
#[derive(Debug, Clone, Copy, PartialEq, Eq)]
pub enum Fetch {
    /// Nothing: the projection renders from the resource alone.
    Nothing,
    /// The file's content as text.
    Text,
    /// The directory's entries, sorted.
    Listing,
}

/// What was fetched from the workspace for a projection.
#[derive(Debug, Clone)]
pub enum Fetched {
    Nothing,
    Text(String),
    Listing(Vec<DirEntry>),
}

/// One entry of a directory listing, as it is shown.
#[derive(Debug, Clone)]
pub struct DirectoryEntry {
    pub name: String,
    pub is_dir: bool,
    pub size: u64,
    /// The name's extension in lowercase; none for a directory.
    pub extension: Option<String>,
}

/// One entry of a table of contents.
#[derive(Debug, Clone)]
pub struct TocEntry {
    /// The heading's level, from 1 to 6.
    pub level: u8,
    /// The heading's title.
    pub text: String,
    /// The anchor derived from the title.
    pub slug: String,
}

/// A table-of-contents entry as plain values.
pub struct TocEntryView {
    pub level: u8,
    pub text: Seq<char>,
    pub slug: Seq<char>,
}

impl View for TocEntry {
    type V = TocEntryView;

    open spec fn view(&self) -> TocEntryView {
        TocEntryView { level: self.level, text: self.text@, slug: self.slug@ }
    }
}

/// What a projection renders.
#[derive(Debug, Clone)]
pub enum ProjectionOutput {
    DirectoryList { entries: Vec<DirectoryEntry> },
    Text { content: String, language: Option<String>, line_count: usize },
    Markdown { raw: String, toc: Vec<TocEntry> },
    Image { mime_type: String, url: String },
}

/// A view of a resource. `confidence` is asked of every registered
/// projection on every request, so it must be cheap and must not touch the
/// file system; `needs` and `project` are asked of the chosen one only.
pub trait Projection: Send + Sync {
    /// Unique identifier for this projection, such as `dir.list`.
    fn id(&self) -> &str;

    /// Human-readable name.
    fn name(&self) -> &str;

    /// How well this projection handles the given resource.
    fn confidence(&self, resource: &Resource) -> Confidence;

    /// What the projection needs from the workspace to render the resource.
    fn needs(&self, resource: &Resource) -> Fetch;

    /// Produces the output for the resource from what was fetched.
    fn project(&self, resource: &Resource, fetched: Fetched) -> Result<
        ProjectionOutput,
        ProjectionError,
    >;
}

/// Whether `score` is what the projection answers when it is asked for
/// its confidence in the resource.
pub open spec fn gives_score<P: Projection + ?Sized>(
    p: &P,
    resource: &Resource,
    score: Confidence,
) -> bool {
    call_ensures(P::confidence, (p, resource), score)
}

/// Whether `name` is what the projection answers when it is asked for its
/// name.
pub open spec fn gives_name<P: Projection + ?Sized>(p: &P, name: Seq<char>) -> bool {
    exists|n: &str| #[trigger] call_ensures(P::name, (p,), n) && n@ == name
}

/// Asks the projection for its name.
pub fn ask_name<P: Projection + ?Sized>(p: &P) -> (name: String)
    ensures
        gives_name(p, name@),
{
    let given = p.name();
    assert(call_ensures(P::name, (p,), given));
    given.to_owned()
}

/// Asks the projection for its confidence in the resource.
pub fn ask_score<P: Projection + ?Sized>(p: &P, resource: &Resource) -> (score: Confidence)
    ensures
        gives_score(p, resource, score),
{
    p.confidence(resource)
}

} // verus!
