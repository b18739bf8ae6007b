//! Directory listing: the entries of a directory, each with its extension.

use crate::paths::extension_of;
use crate::projection::{
    resource_extension, Confidence, DirectoryEntry, Fetch, Fetched, Projection, ProjectionError,
    ProjectionOutput, Resource,
};
use crate::workspace::DirEntry;
use vstd::prelude::*;

verus! {

pub struct DirList;

impl DirectoryEntry {
    /// The extension as plain text.
    pub open spec fn extension_text(&self) -> Option<Seq<char>> {
        match self.extension {
            Some(e) => Some(e@),
            None => None,
        }
    }

    /// Whether this is `entry` as a listing shows it: the same name, kind
    /// and size, and the extension of the name where it is a file.
    pub open spec fn shows(&self, entry: &DirEntry) -> bool {
        &&& self.name@ == entry.name@
        &&& self.is_dir == entry.is_dir
        &&& self.size == entry.size
        &&& self.extension_text() == resource_extension(entry.name@, entry.is_dir)
    }

    /// The entry as a listing shows it.
    pub fn of(entry: &DirEntry) -> (shown: DirectoryEntry)
        ensures
            shown.shows(entry),
    {
        let extension = if entry.is_dir {
            None
        } else {
            match extension_of(entry.name.as_str()) {
                Some(e) => Some(e.as_str().to_lowercase()),
                None => None,
            }
        };
        DirectoryEntry {
            name: entry.name.clone(),
            is_dir: entry.is_dir,
            size: entry.size,
            extension,
        }
    }
}

impl DirList {
    /// Renders a listing: every entry as it is shown, in the order given.
    pub fn render(entries: &Vec<DirEntry>) -> (out: ProjectionOutput)
        ensures
            out matches ProjectionOutput::DirectoryList { entries: shown } && shown@.len()
                == entries@.len() && forall|i: int|
                0 <= i < shown@.len() ==> (#[trigger] shown@[i]).shows(&entries@[i]),
    {
        let mut shown: Vec<DirectoryEntry> = Vec::new();
        let mut i: usize = 0;
        while i < entries.len()
            invariant
                i <= entries.len(),
                shown@.len() == i,
                forall|k: int| 0 <= k < i ==> (#[trigger] shown@[k]).shows(&entries@[k]),
            decreases entries.len() - i,
        {
            shown.push(DirectoryEntry::of(&entries[i]));
            i += 1;
        }
        ProjectionOutput::DirectoryList { entries: shown }
    }
}

impl Projection for DirList {
    fn id(&self) -> (r: &str)
        ensures
            r@ == "dir.list"@,
    {
        "dir.list"
    }

    fn name(&self) -> (r: &str)
        ensures
            r@ == "Directory Listing"@,
    {
        "Directory Listing"
    }

    fn confidence(&self, resource: &Resource) -> (c: Confidence)
        ensures
            c.value() == if resource.is_dir {
                1000nat
            } else {
                0nat
            },
    {
        if resource.is_dir {
            Confidence::from_permille(1000)
        } else {
            Confidence::from_permille(0)
        }
    }

    fn needs(&self, resource: &Resource) -> (f: Fetch)
        ensures
            f == Fetch::Listing,
    {
        Fetch::Listing
    }

    fn project(&self, resource: &Resource, fetched: Fetched) -> (r: Result<
        ProjectionOutput,
        ProjectionError,
    >)
        ensures
            fetched is Listing <==> r is Ok,
            r matches Err(e) ==> e is Unsupported,
            r matches Ok(out) ==> (out matches ProjectionOutput::DirectoryList { entries: shown }
                && shown@.len() == fetched->Listing_0@.len() && forall|i: int|
                0 <= i < shown@.len() ==> (#[trigger] shown@[i]).shows(&fetched->Listing_0@[i])),
    {
        match fetched {
            Fetched::Listing(entries) => Ok(DirList::render(&entries)),
            _ => Err(ProjectionError::Unsupported),
        }
    }
}

} // verus!
