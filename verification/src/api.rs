//! Arguments of the calls that change tags and locations, and what each
//! call asks of the store.

use vstd::prelude::*;

verus! {

#[derive(Clone, Debug, PartialEq, Eq)]
pub struct TagCreateArgs {
    pub name: String,
    pub color: String,
}

#[derive(Clone, Debug, PartialEq, Eq)]
pub struct TagAssignArgs {
    pub file_id: i32,
    pub tag_id: i32,
    pub unassign: bool,
}

#[derive(Clone, Debug, PartialEq, Eq)]
pub struct TagUpdateArgs {
    pub id: i32,
    pub name: Option<String>,
    pub color: Option<String>,
}

#[derive(Clone, Debug, PartialEq, Eq)]
pub struct LocationUpdateArgs {
    pub id: i32,
    pub name: Option<String>,
}

#[derive(Clone, Debug, PartialEq, Eq)]
pub struct GetExplorerDirArgs {
    pub location_id: i32,
    pub path: String,
    pub limit: i32,
}

/// A directory and the paths directly below it.
#[derive(Clone, Debug, PartialEq, Eq)]
pub struct DirectoryWithContents<P> {
    pub directory: P,
    pub contents: Vec<P>,
}

/// A change to the relation between tags and files.
#[derive(Clone, Copy, Debug, PartialEq, Eq, Structural)]
pub enum TagAssignment {
    /// Make the edge between the tag and the file.
    Assign { tag_id: i32, file_id: i32 },
    /// Delete the edge between the tag and the file.
    Unassign { tag_id: i32, file_id: i32 },
}

impl TagAssignArgs {
    /// What the call asks for.
    pub fn assignment(&self) -> (a: TagAssignment)
        ensures
            a == (if self.unassign {
                TagAssignment::Unassign { tag_id: self.tag_id, file_id: self.file_id }
            } else {
                TagAssignment::Assign { tag_id: self.tag_id, file_id: self.file_id }
            }),
    {
        if self.unassign {
            TagAssignment::Unassign { tag_id: self.tag_id, file_id: self.file_id }
        } else {
            TagAssignment::Assign { tag_id: self.tag_id, file_id: self.file_id }
        }
    }
}

} // verus!
