//! Resolution of module references to files.

use vstd::prelude::*;
use crate::FileId;

verus! {

/// Resolution of `entries` for `name`, from position `i` on: the first
/// entry whose name matches decides.
pub open spec fn resolve_from(entries: Seq<(Seq<char>, u32)>, name: Seq<char>, i: int) -> Option<
    u32,
>
    decreases entries.len() - i,
{
    if i < 0 || i >= entries.len() {
        None
    } else if entries[i].0 == name {
        Some(entries[i].1)
    } else {
        resolve_from(entries, name, i + 1)
    }
}

/// What `entries` resolve `name` to.
pub open spec fn resolve_spec(entries: Seq<(Seq<char>, u32)>, name: Seq<char>) -> Option<u32> {
    resolve_from(entries, name, 0)
}

/// The file, if any, of a resolved module reference, as a plain value.
pub open spec fn file_of(r: Option<FileId>) -> Option<u32> {
    match r {
        Some(f) => Some(f.0),
        None => None,
    }
}

/// Capability that resolves a module reference to a file; pluggable, and
/// replaceable wholesale on an edit batch.
#[derive(Debug)]
pub struct FileResolver {
    entries: Vec<(String, FileId)>,
}

impl View for FileResolver {
    type V = Seq<(Seq<char>, u32)>;

    closed spec fn view(&self) -> Seq<(Seq<char>, u32)> {
        self.entries@.map_values(|e: (String, FileId)| (e.0@, e.1.0))
    }
}

impl FileResolver {
    /// A resolver that maps each listed module reference to its file.
    pub fn new(entries: Vec<(String, FileId)>) -> (r: FileResolver)
        ensures
            r@ == entries@.map_values(|e: (String, FileId)| (e.0@, e.1.0)),
    {
        FileResolver { entries }
    }

    /// A resolver that resolves nothing.
    pub fn empty() -> (r: FileResolver)
        ensures
            r@ == Seq::<(Seq<char>, u32)>::empty(),
    {
        let r = FileResolver { entries: Vec::new() };
        proof {
            assert(r@ =~= Seq::<(Seq<char>, u32)>::empty());
        }
        r
    }

    /// Resolves one module reference.
    pub fn resolve(&self, name: &String) -> (r: Option<FileId>)
        ensures
            file_of(r) == resolve_spec(self@, name@),
    {
        let mut i: usize = 0;
        while i < self.entries.len()
            invariant
                i <= self.entries.len(),
                resolve_from(self@, name@, 0) == resolve_from(self@, name@, i as int),
            decreases self.entries.len() - i,
        {
            if self.entries[i].0 == *name {
                return Some(self.entries[i].1);
            }
            i = i + 1;
        }
        None
    }
}

} // verus!
