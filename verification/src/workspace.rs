//! The workspace: one directory, and the rule that nothing resolved through
//! it lies outside that directory.

use crate::order::{sort, sorted, Ranked};
use crate::paths::{
    child, child_of, file_name, file_name_of, is_within, join_under, parent, parent_of, unrooted,
    within,
};
use crate::text::{
    chars_of, is_lex_less, lemma_lex_asymmetric, lemma_lex_le_transitive, lemma_lex_total,
    lemma_lex_transitive, lex_le, lex_less, unicode_lowercase,
};
use vstd::prelude::*;
use vstd::utf8::{decode_utf8, valid_utf8};

verus! {

/// The error type of the operating system's calls.
#[verifier::external_type_specification]
#[verifier::external_body]
pub struct ExIoError(std::io::Error);

/// What kind of failure the operating system reported, as far as the
/// library tells failures apart.
#[derive(Debug, Clone, Copy, PartialEq, Eq)]
pub enum FailureKind {
    /// The entry does not exist.
    NotFound,
    /// The data is not what was asked for, such as bytes that are no text.
    InvalidData,
    /// Any other failure.
    Other,
}

/// Why a workspace operation failed.
#[derive(Debug, Clone)]
pub enum WorkspaceError {
    /// The path leaves the workspace; holds the path as it was requested.
    PathTraversal(String),
    /// The entry does not exist; holds the system's message.
    NotFound(String),
    /// The bytes are no valid text; holds the system's message.
    Decode(String),
    /// Any other failure of the operating system; holds its message.
    Io(String),
}

/// `io::Error::kind`, reduced to the kinds that the library tells apart.
#[verifier::external_body]
fn failure_kind(e: &std::io::Error) -> FailureKind {
    match e.kind() {
        std::io::ErrorKind::NotFound => FailureKind::NotFound,
        std::io::ErrorKind::InvalidData => FailureKind::InvalidData,
        _ => FailureKind::Other,
    }
}

/// The message of an `io::Error`, as its `Display` prints it. Nothing is
/// claimed of the text.
#[verifier::external_body]
fn failure_text(e: &std::io::Error) -> String {
    e.to_string()
}

/// `Path::exists`: whether the path names an entry right now. The answer
/// depends on the file system, so nothing is claimed of it.
#[verifier::external_body]
fn path_exists(path: &str) -> bool {
    std::path::Path::new(path).exists()
}

/// `Path::canonicalize`: the absolute form of the path with all links
/// resolved, or the system's error. `None` stands for a canonical path
/// that is no valid Unicode. The answer depends on the file system, so
/// nothing is claimed of it.
#[verifier::external_body]
fn canonical_path(path: &str) -> Result<Option<String>, std::io::Error> {
    match std::path::Path::new(path).canonicalize() {
        Ok(p) => Ok(p.to_str().map(String::from)),
        Err(e) => Err(e),
    }
}

/// Whether the system's error reports this kind and this message.
pub closed spec fn reports(e: &std::io::Error, kind: FailureKind, detail: Seq<char>) -> bool {
    &&& call_ensures(failure_kind, (e,), kind)
    &&& exists|d: String| #[trigger] call_ensures(failure_text, (e,), d) && d@ == detail
}

impl WorkspaceError {
    /// Whether this is the error for a failure of the given kind with the
    /// given message: a missing entry is not found, invalid data is a
    /// decoding error, and anything else an error of the system.
    pub open spec fn stands_for(&self, kind: FailureKind, detail: Seq<char>) -> bool {
        match kind {
            FailureKind::NotFound => *self matches WorkspaceError::NotFound(d) && d@ == detail,
            FailureKind::InvalidData => *self matches WorkspaceError::Decode(d) && d@ == detail,
            FailureKind::Other => *self matches WorkspaceError::Io(d) && d@ == detail,
        }
    }

    /// The error for a failure of the given kind.
    pub fn from_failure(kind: FailureKind, detail: String) -> (e: WorkspaceError)
        ensures
            e.stands_for(kind, detail@),
    {
        match kind {
            FailureKind::NotFound => WorkspaceError::NotFound(detail),
            FailureKind::InvalidData => WorkspaceError::Decode(detail),
            FailureKind::Other => WorkspaceError::Io(detail),
        }
    }

    /// The error for a failure that the operating system reported. It is
    /// never a traversal.
    pub fn from_io(e: &std::io::Error) -> (r: WorkspaceError)
        ensures
            exists|kind: FailureKind, detail: Seq<char>| #[trigger]
                reports(e, kind, detail) && r.stands_for(kind, detail),
            !(r is PathTraversal),
    {
        let kind = failure_kind(e);
        let detail = failure_text(e);
        assert(reports(e, kind, detail@));
        WorkspaceError::from_failure(kind, detail)
    }

    /// The text of the message.
    pub open spec fn message_text(&self) -> Seq<char> {
        match self {
            WorkspaceError::PathTraversal(p) => "path escapes workspace root: "@ + p@,
            WorkspaceError::NotFound(d) => "io error: "@ + d@,
            WorkspaceError::Decode(d) => "io error: "@ + d@,
            WorkspaceError::Io(d) => "io error: "@ + d@,
        }
    }

    /// A message for people.
    pub fn message(&self) -> (m: String)
        ensures
            m@ == self.message_text(),
    {
        match self {
            WorkspaceError::PathTraversal(p) => {
                let mut m = "path escapes workspace root: ".to_owned();
                m.append(p.as_str());
                m
            },
            WorkspaceError::NotFound(d) => {
                let mut m = "io error: ".to_owned();
                m.append(d.as_str());
                m
            },
            WorkspaceError::Decode(d) => {
                let mut m = "io error: ".to_owned();
                m.append(d.as_str());
                m
            },
            WorkspaceError::Io(d) => {
                let mut m = "io error: ".to_owned();
                m.append(d.as_str());
                m
            },
        }
    }
}

/// Whether `found` is what the file system answers when it is asked for
/// the canonical form of `path`.
pub closed spec fn canonicalizes(path: &str, found: Result<Option<String>, std::io::Error>) -> bool {
    call_ensures(canonical_path, (path,), found)
}

/// Whether `r` is what the library makes of the file system's answer: the
/// canonical path where there is one, an error of the system where the
/// canonical path is no valid Unicode, and otherwise the error that stands
/// for the kind and the message that the system's error reports.
pub open spec fn settles(
    found: Result<Option<String>, std::io::Error>,
    r: Result<Seq<char>, WorkspaceError>,
) -> bool {
    match found {
        Ok(Some(canonical)) => r matches Ok(p) && p == canonical@,
        Ok(None) => r matches Err(WorkspaceError::Io(d)) && d@ == "path is not valid Unicode"@,
        Err(e) => r matches Err(err) && exists|kind: FailureKind, detail: Seq<char>| #[trigger]
            reports(&e, kind, detail) && err.stands_for(kind, detail),
    }
}

/// One directory of the file system, held by its canonical path.
#[derive(Debug, Clone)]
pub struct Workspace {
    root: String,
}

impl Workspace {
    /// The root directory's path.
    pub closed spec fn root_path(&self) -> Seq<char> {
        self.root@
    }

    /// The workspace whose root is the given canonical path.
    pub fn rooted_at(canonical: String) -> (ws: Workspace)
        ensures
            ws.root_path() == canonical@,
    {
        Workspace { root: canonical }
    }

    /// Opens the workspace at `root`, which must exist: the file system is
    /// asked for the canonical form of `root`, and the workspace holds that
    /// form. Where the file system refuses, the error stands for its
    /// refusal and is never a traversal.
    pub fn new(root: &str) -> (r: Result<Workspace, WorkspaceError>)
        ensures
            exists|found: Result<Option<String>, std::io::Error>| #[trigger]
                canonicalizes(root, found) && settles(
                    found,
                    match r {
                        Ok(ws) => Ok(ws.root_path()),
                        Err(e) => Err(e),
                    },
                ),
            r matches Err(e) ==> !(e is PathTraversal),
    {
        match Workspace::canonical(root) {
            Ok(canonical) => Ok(Workspace::rooted_at(canonical)),
            Err(e) => Err(e),
        }
    }

    /// The root directory's path.
    pub fn root(&self) -> (r: &str)
        ensures
            r@ == self.root_path(),
    {
        self.root.as_str()
    }

    /// The path that a request names before any link is resolved: the
    /// request below the root, read as relative even where it starts with
    /// a separator.
    pub fn target(&self, relative: &str) -> (joined: String)
        ensures
            joined@ == child(self.root_path(), unrooted(relative@)),
    {
        join_under(self.root.as_str(), relative)
    }

    /// Lets a resolved path pass if it is within the root, and refuses it
    /// as a traversal of the requested path if it is not.
    pub fn contain(&self, resolved: String, relative: &str) -> (r: Result<String, WorkspaceError>)
        ensures
            within(self.root_path(), resolved@) ==> (r matches Ok(p) && p@ == resolved@),
            !within(self.root_path(), resolved@) ==> (r matches Err(
                WorkspaceError::PathTraversal(p),
            ) && p@ == relative@),
    {
        if is_within(self.root.as_str(), resolved.as_str()) {
            Ok(resolved)
        } else {
            Err(WorkspaceError::PathTraversal(relative.to_owned()))
        }
    }

    /// The canonical form of `path` as the file system gives it, or the
    /// error that stands for the system's refusal.
    fn canonical(path: &str) -> (r: Result<String, WorkspaceError>)
        ensures
            exists|found: Result<Option<String>, std::io::Error>| #[trigger]
                canonicalizes(path, found) && settles(
                    found,
                    match r {
                        Ok(p) => Ok(p@),
                        Err(e) => Err(e),
                    },
                ),
            r matches Err(e) ==> !(e is PathTraversal),
    {
        let found = canonical_path(path);
        assert(canonicalizes(path, found));
        match found {
            Ok(Some(canonical)) => Ok(canonical),
            Ok(None) => Err(WorkspaceError::Io("path is not valid Unicode".to_owned())),
            Err(e) => Err(WorkspaceError::from_io(&e)),
        }
    }

    /// Splits a target that does not exist into the directory that must
    /// exist and the name to create in it. A target without a final name,
    /// such as one that ends in `..`, is refused as a traversal of the
    /// requested path.
    pub fn split_missing(joined: &str, relative: &str) -> (r: Result<
        (String, String),
        WorkspaceError,
    >)
        ensures
            match (parent(joined@), file_name(joined@)) {
                (Some(dir), Some(name)) => r matches Ok(pair) && pair.0@ == dir && pair.1@ == name,
                _ => r matches Err(WorkspaceError::PathTraversal(p)) && p@ == relative@,
            },
    {
        let dir = match parent_of(joined) {
            Some(p) => p,
            None => {
                return Err(WorkspaceError::PathTraversal(relative.to_owned()));
            },
        };
        let name = match file_name_of(joined) {
            Some(n) => n,
            None => {
                return Err(WorkspaceError::PathTraversal(relative.to_owned()));
            },
        };
        Ok((dir, name))
    }

    /// Places a name below the canonical form of its directory and lets the
    /// result pass if it is within the root.
    pub fn contain_new(&self, canonical_dir: &str, name: &str, relative: &str) -> (r: Result<
        String,
        WorkspaceError,
    >)
        ensures
            within(self.root_path(), child(canonical_dir@, name@)) ==> (r matches Ok(p) && p@
                == child(canonical_dir@, name@)),
            !within(self.root_path(), child(canonical_dir@, name@)) ==> (r matches Err(
                WorkspaceError::PathTraversal(p),
            ) && p@ == relative@),
    {
        self.contain(child_of(canonical_dir, name), relative)
    }

    /// Resolves a requested path to a path of the file system. Where the
    /// target exists, the result is its canonical form; where it does not,
    /// the canonical form of its parent, which must exist, with the
    /// target's final component below it. Whatever the file system holds,
    /// a path that is returned is within the root, and a traversal is
    /// reported with the path as it was requested.
    pub fn resolve(&self, relative: &str) -> (r: Result<String, WorkspaceError>)
        ensures
            r matches Ok(p) ==> within(self.root_path(), p@),
            r matches Err(WorkspaceError::PathTraversal(p)) ==> p@ == relative@,
    {
        let joined = self.target(relative);
        if path_exists(joined.as_str()) {
            match Workspace::canonical(joined.as_str()) {
                Ok(resolved) => self.contain(resolved, relative),
                Err(e) => Err(e),
            }
        } else {
            match Workspace::split_missing(joined.as_str(), relative) {
                Ok((dir, name)) => match Workspace::canonical(dir.as_str()) {
                    Ok(base) => self.contain_new(base.as_str(), name.as_str(), relative),
                    Err(e) => Err(e),
                },
                Err(e) => Err(e),
            }
        }
    }
}

/// `String::from_utf8`: the text that the bytes encode, if they are valid
/// UTF-8.
#[verifier::external_body]
fn text_from_utf8(bytes: Vec<u8>) -> (r: Option<String>)
    ensures
        r is Some <==> valid_utf8(bytes@),
        r matches Some(s) ==> s@ == decode_utf8(bytes@),
{
    String::from_utf8(bytes).ok()
}

/// Reads bytes as text: the text that they encode where they are valid
/// UTF-8, and a decoding error where they are not.
pub fn decode_text(bytes: Vec<u8>) -> (r: Result<String, WorkspaceError>)
    ensures
        valid_utf8(bytes@) ==> (r matches Ok(s) && s@ == decode_utf8(bytes@)),
        !valid_utf8(bytes@) ==> r matches Err(WorkspaceError::Decode(_)),
{
    match text_from_utf8(bytes) {
        Some(s) => Ok(s),
        None => Err(WorkspaceError::Decode("stream did not contain valid UTF-8".to_owned())),
    }
}

/// One entry of a directory.
#[derive(Debug, Clone)]
pub struct DirEntry {
    pub name: String,
    pub is_dir: bool,
    pub size: u64,
}

/// The order of a listing, on what it reads of two entries: a directory
/// stands before a file; of two of a kind, the one whose lowercase name
/// comes first; of two with the same lowercase name, the one whose name
/// comes first.
pub open spec fn listing_precedes(
    a_dir: bool,
    a_folded: Seq<char>,
    a_name: Seq<char>,
    b_dir: bool,
    b_folded: Seq<char>,
    b_name: Seq<char>,
) -> bool {
    if a_dir != b_dir {
        a_dir
    } else if a_folded != b_folded {
        lex_less(a_folded, b_folded)
    } else {
        lex_le(a_name, b_name)
    }
}

/// Decides the order of a listing from the kinds, the lowercase names and
/// the names of two entries.
pub fn listed_before(
    a_dir: bool,
    a_folded: &str,
    a_name: &str,
    b_dir: bool,
    b_folded: &str,
    b_name: &str,
) -> (r: bool)
    ensures
        r == listing_precedes(a_dir, a_folded@, a_name@, b_dir, b_folded@, b_name@),
{
    if a_dir != b_dir {
        a_dir
    } else if !a_folded.eq(b_folded) {
        is_lex_less(&chars_of(a_folded), &chars_of(b_folded))
    } else {
        !is_lex_less(&chars_of(b_name), &chars_of(a_name))
    }
}

impl DirEntry {
    /// The lowercase form of the entry's name.
    pub open spec fn folded(&self) -> Seq<char> {
        unicode_lowercase(self.name@)
    }
}

impl Ranked for DirEntry {
    open spec fn precedes(&self, other: &Self) -> bool {
        listing_precedes(
            self.is_dir,
            self.folded(),
            self.name@,
            other.is_dir,
            other.folded(),
            other.name@,
        )
    }

    fn goes_before(&self, other: &Self) -> (b: bool) {
        let mine = self.name.as_str().to_lowercase();
        let theirs = other.name.as_str().to_lowercase();
        listed_before(
            self.is_dir,
            mine.as_str(),
            self.name.as_str(),
            other.is_dir,
            theirs.as_str(),
            other.name.as_str(),
        )
    }

    proof fn precedes_total(a: &Self, b: &Self) {
        if a.is_dir == b.is_dir {
            if a.folded() != b.folded() {
                lemma_lex_total(a.folded(), b.folded());
            } else {
                lemma_lex_asymmetric(a.name@, b.name@);
            }
        }
    }

    proof fn precedes_transitive(a: &Self, b: &Self, c: &Self) {
        if a.is_dir == b.is_dir && b.is_dir == c.is_dir {
            let (x, y, z) = (a.folded(), b.folded(), c.folded());
            if x != y && y != z {
                lemma_lex_transitive(x, y, z);
                lemma_lex_asymmetric(x, y);
                lemma_lex_asymmetric(x, z);
                if x == z {
                    lemma_lex_asymmetric(x, y);
                }
            } else if x == y && y == z {
                lemma_lex_le_transitive(a.name@, b.name@, c.name@);
            }
        }
    }
}

/// Sorts a listing: directories first, then by lowercase name, then by
/// name. The result holds the same entries.
pub fn sort_entries(entries: Vec<DirEntry>) -> (out: Vec<DirEntry>)
    ensures
        sorted(out@),
        out@.to_multiset() == entries@.to_multiset(),
        out@.len() == entries@.len(),
{
    sort(entries)
}

} // verus!
