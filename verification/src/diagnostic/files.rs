//! The table of source files that spans refer to.
use vstd::prelude::*;

use crate::diagnostic::FileId;

verus! {

/// A source file: the module name it defines and where it was read from.
#[derive(Clone, Debug)]
pub struct File {
    pub name: String,
    pub path: String,
}

/// The source files, each under the id it was added with.
#[derive(Debug)]
pub struct Files {
    files: Vec<File>,
}

impl View for Files {
    type V = Seq<File>;

    closed spec fn view(&self) -> Seq<File> {
        self.files@
    }
}

impl Default for Files {
    fn default() -> (r: Self)
        ensures
            r@ == Seq::<File>::empty(),
    {
        Self::new()
    }
}

impl Files {
    pub fn new() -> (r: Self)
        ensures
            r@ == Seq::<File>::empty(),
    {
        Files { files: Vec::new() }
    }

    /// Adds a file and returns the id it can be looked up by. Ids are handed
    /// out in order, starting from 0.
    pub fn add(&mut self, file: File) -> (id: FileId)
        requires
            old(self)@.len() <= u32::MAX,
        ensures
            id.index == old(self)@.len(),
            final(self)@ == old(self)@.push(file),
    {
        let id = FileId { index: self.files.len() as u32 };
        self.files.push(file);
        id
    }

    /// The file added under `file`, if any.
    pub fn get(&self, file: FileId) -> (r: Option<&File>)
        ensures
            r == (if file.index < self@.len() {
                Some(&self@[file.index as int])
            } else {
                None
            }),
    {
        let index = file.index as usize;
        if index < self.files.len() {
            Some(&self.files[index])
        } else {
            None
        }
    }
}

/// A file added under an id is what a lookup of that id returns, and adding
/// it leaves the files added before readable as they were.
pub proof fn law_get_after_add(files: Seq<File>, file: File, other: nat)
    ensures
        files.push(file)[files.len() as int] == file,
        other < files.len() ==> files.push(file)[other as int] == files[other as int],
{
}

} // verus!
