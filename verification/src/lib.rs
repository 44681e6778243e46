//! Source-root subsystem of an incremental code-intelligence engine.
//!
//! A root owns a collection of source files and produces derived artifacts
//! on demand: line indices, parse trees, a module dependency graph and a
//! symbol index. Two variants exist: an immutable root, whose aggregates are
//! computed once at construction (in parallel), and a mutable root, whose
//! membership and text change through batched edits and whose derived
//! artifacts are recomputed lazily, with input-driven cancellation.

use vstd::prelude::*;

pub mod descriptors;
pub mod line_index;
pub mod memo;
pub mod readonly;
pub mod resolver;
pub mod root;
pub mod symbol_index;
pub mod text;
pub mod writable;

verus! {

/// Opaque, stable identifier for one source file within a root.
#[derive(Clone, Copy, PartialEq, Eq, Hash, Debug, Structural)]
pub struct FileId(pub u32);

/// A derived computation was abandoned because an input changed mid-flight.
#[derive(Clone, Copy, PartialEq, Eq, Debug, Structural)]
pub struct Canceled;

/// Outcome of a derived query that may be abandoned on concurrent edits.
pub type Cancelable<T> = Result<T, Canceled>;

/// The file list a vector of files stands for: each file's id and text as
/// plain values, in order.
pub open spec fn file_list_of(files: Seq<(FileId, String)>) -> Seq<(u32, Seq<char>)> {
    files.map_values(|f: (FileId, String)| (f.0.0, f.1@))
}

/// A file list (id and text, in order) names each id at most once.
pub open spec fn distinct_ids(files: Seq<(u32, Seq<char>)>) -> bool {
    forall|i: int, j: int|
        0 <= i < j < files.len() ==> (#[trigger] files[i]).0 != (#[trigger] files[j]).0
}

/// Whether a file list holds `id`.
pub open spec fn id_in(files: Seq<(u32, Seq<char>)>, id: u32) -> bool {
    exists|i: int| 0 <= i < files.len() && (#[trigger] files[i]).0 == id
}

/// The text a file list gives `id` (meaningful when `id_in` holds).
pub open spec fn text_in(files: Seq<(u32, Seq<char>)>, id: u32) -> Seq<char> {
    files[choose|i: int| 0 <= i < files.len() && (#[trigger] files[i]).0 == id].1
}

/// With distinct ids, the text of `id` is the text of any entry naming it.
pub proof fn lemma_text_in(files: Seq<(u32, Seq<char>)>, i: int)
    requires
        distinct_ids(files),
        0 <= i < files.len(),
    ensures
        id_in(files, files[i].0),
        text_in(files, files[i].0) == files[i].1,
{
    let id = files[i].0;
    let j = choose|j: int| 0 <= j < files.len() && (#[trigger] files[j]).0 == id;
    if i != j {
        if i < j {
            assert(files[i].0 != files[j].0);
        } else {
            assert(files[j].0 != files[i].0);
        }
    }
}

} // verus!
