//! The mutable root: membership and text change only through batched
//! edits; derived artifacts are recomputed lazily and stale in-flight
//! reads observe cancellation.

use vstd::prelude::*;
use std::sync::Arc;
use crate::{Cancelable, Canceled, FileId, distinct_ids, file_list_of, id_in, lemma_text_in,
    text_in};
use crate::descriptors::{ModuleDescriptor, ModuleTreeDescriptor, tree_of_files};
use crate::line_index::{LineIndex, line_starts};
use crate::resolver::FileResolver;
use crate::symbol_index::{SymbolIndex, text_symbols};
use crate::text::{SyntaxTree, modules_of_text, parse, parse_spec};

verus! {

/// Whether some record of the batch gives `id` new text.
pub open spec fn batch_sets(b: Seq<(FileId, Option<String>)>, id: u32) -> bool {
    exists|i: int| 0 <= i < b.len() && (#[trigger] b[i]).0.0 == id && b[i].1 is Some
}

/// Whether some record of the batch deletes `id`.
pub open spec fn batch_removes(b: Seq<(FileId, Option<String>)>, id: u32) -> bool {
    exists|i: int| 0 <= i < b.len() && (#[trigger] b[i]).0.0 == id && b[i].1 is None
}

/// The last text the batch gives `id` (meaningful when `batch_sets` holds).
pub open spec fn last_set_text(b: Seq<(FileId, Option<String>)>, id: u32) -> Seq<char>
    decreases b.len(),
{
    if b.len() == 0 {
        Seq::empty()
    } else if b.last().0.0 == id && b.last().1 is Some {
        match b.last().1 {
            Some(s) => s@,
            None => Seq::empty(),
        }
    } else {
        last_set_text(b.drop_last(), id)
    }
}

/// Two batches holding the same records accumulate the same deletion and
/// set records: membership after a batch does not depend on the order of
/// its records.
pub proof fn lemma_batch_order_independent(
    b1: Seq<(FileId, Option<String>)>,
    b2: Seq<(FileId, Option<String>)>,
)
    requires
        forall|e: (FileId, Option<String>)| b1.contains(e) <==> b2.contains(e),
    ensures
        forall|id: u32| batch_sets(b1, id) <==> batch_sets(b2, id),
        forall|id: u32| batch_removes(b1, id) <==> batch_removes(b2, id),
{
    assert forall|id: u32| batch_sets(b1, id) <==> batch_sets(b2, id) by {
        if batch_sets(b1, id) {
            let i = choose|i: int| 0 <= i < b1.len() && (#[trigger] b1[i]).0.0 == id
                && b1[i].1 is Some;
            assert(b1.contains(b1[i]));
            let j = choose|j: int| 0 <= j < b2.len() && b2[j] == b1[i];
            assert(batch_sets(b2, id));
        }
        if batch_sets(b2, id) {
            let i = choose|i: int| 0 <= i < b2.len() && (#[trigger] b2[i]).0.0 == id
                && b2[i].1 is Some;
            assert(b2.contains(b2[i]));
            let j = choose|j: int| 0 <= j < b1.len() && b1[j] == b2[i];
            assert(batch_sets(b1, id));
        }
    }
    assert forall|id: u32| batch_removes(b1, id) <==> batch_removes(b2, id) by {
        if batch_removes(b1, id) {
            let i = choose|i: int| 0 <= i < b1.len() && (#[trigger] b1[i]).0.0 == id
                && b1[i].1 is None;
            assert(b1.contains(b1[i]));
            let j = choose|j: int| 0 <= j < b2.len() && b2[j] == b1[i];
            assert(batch_removes(b2, id));
        }
        if batch_removes(b2, id) {
            let i = choose|i: int| 0 <= i < b2.len() && (#[trigger] b2[i]).0.0 == id
                && b2[i].1 is None;
            assert(b2.contains(b2[i]));
            let j = choose|j: int| 0 <= j < b1.len() && b1[j] == b2[i];
            assert(batch_removes(b1, id));
        }
    }
}

/// How one more record changes what a batch prefix accumulates.
proof fn lemma_batch_take_step(b: Seq<(FileId, Option<String>)>, k: int)
    requires
        0 <= k < b.len(),
    ensures
        forall|id: u32|
            #![trigger batch_sets(b.take(k + 1), id)]
            #![trigger batch_sets(b.take(k), id)]
            batch_sets(b.take(k + 1), id) <==> (batch_sets(b.take(k), id) || (b[k].0.0 == id
                && b[k].1 is Some)),
        forall|id: u32|
            #![trigger batch_removes(b.take(k + 1), id)]
            #![trigger batch_removes(b.take(k), id)]
            batch_removes(b.take(k + 1), id) <==> (batch_removes(b.take(k), id) || (b[k].0.0
                == id && b[k].1 is None)),
        forall|id: u32|
            #![trigger last_set_text(b.take(k + 1), id)]
            #![trigger last_set_text(b.take(k), id)]
            last_set_text(b.take(k + 1), id) == (if b[k].0.0 == id
                && b[k].1 is Some {
                match b[k].1 {
                    Some(s) => s@,
                    None => Seq::empty(),
                }
            } else {
                last_set_text(b.take(k), id)
            }),
{
    let p = b.take(k);
    let q = b.take(k + 1);
    assert(q =~= p.push(b[k]));
    assert(q.last() == b[k]);
    assert(q.drop_last() =~= p);
    assert forall|id: u32| #![trigger batch_sets(q, id)] #![trigger batch_sets(p, id)]
        batch_sets(q, id) <==> (batch_sets(p, id) || (b[k].0.0 == id && b[k].1 is Some)) by {
        if batch_sets(q, id) {
            let i = choose|i: int| 0 <= i < q.len() && (#[trigger] q[i]).0.0 == id
                && q[i].1 is Some;
            if i < k {
                assert(p[i] == q[i]);
                assert(batch_sets(p, id));
            }
        }
        if batch_sets(p, id) {
            let i = choose|i: int| 0 <= i < p.len() && (#[trigger] p[i]).0.0 == id
                && p[i].1 is Some;
            assert(q[i] == p[i]);
            assert(batch_sets(q, id));
        }
        if b[k].0.0 == id && b[k].1 is Some {
            assert(q[k] == b[k]);
            assert(batch_sets(q, id));
        }
    }
    assert forall|id: u32| #![trigger batch_removes(q, id)] #![trigger batch_removes(p, id)]
        batch_removes(q, id) <==> (batch_removes(p, id) || (b[k].0.0 == id && b[k].1 is None)) by {
        if batch_removes(q, id) {
            let i = choose|i: int| 0 <= i < q.len() && (#[trigger] q[i]).0.0 == id
                && q[i].1 is None;
            if i < k {
                assert(p[i] == q[i]);
                assert(batch_removes(p, id));
            }
        }
        if batch_removes(p, id) {
            let i = choose|i: int| 0 <= i < p.len() && (#[trigger] p[i]).0.0 == id
                && p[i].1 is None;
            assert(q[i] == p[i]);
            assert(batch_removes(q, id));
        }
        if b[k].0.0 == id && b[k].1 is None {
            assert(q[k] == b[k]);
            assert(batch_removes(q, id));
        }
    }
}

/// The first position of `id` in the vector, if any.
fn find_file(files: &Vec<(FileId, String)>, id: u32) -> (r: Option<usize>)
    ensures
        match r {
            Some(i) => i < files@.len() && files@[i as int].0.0 == id,
            None => forall|k: int| 0 <= k < files@.len() ==> (#[trigger] files@[k]).0.0 != id,
        },
{
    let mut i: usize = 0;
    while i < files.len()
        invariant
            i <= files.len(),
            forall|k: int| 0 <= k < i ==> (#[trigger] files@[k]).0.0 != id,
        decreases files.len() - i,
    {
        if files[i].0.0 == id {
            return Some(i);
        }
        i = i + 1;
    }
    None
}

/// What writing `text` for `id` does to a file list: `id` becomes a
/// member with that text, everything else is untouched.
pub open spec fn upserted(
    ofl: Seq<(u32, Seq<char>)>,
    nfl: Seq<(u32, Seq<char>)>,
    id: u32,
    text: Seq<char>,
) -> bool {
    &&& distinct_ids(nfl)
    &&& (forall|x: u32| #![trigger id_in(nfl, x)] #![trigger id_in(ofl, x)]
        id_in(nfl, x) <==> (id_in(ofl, x) || x == id))
    &&& text_in(nfl, id) == text
    &&& (forall|x: u32| #![trigger text_in(nfl, x)] #![trigger text_in(ofl, x)]
        x != id && id_in(ofl, x) ==> text_in(nfl, x) == text_in(ofl, x))
}

/// What deleting `id` does to a file list: `id` is no member afterwards,
/// everything else is untouched.
pub open spec fn removed(
    ofl: Seq<(u32, Seq<char>)>,
    nfl: Seq<(u32, Seq<char>)>,
    id: u32,
) -> bool {
    &&& distinct_ids(nfl)
    &&& (forall|x: u32| #![trigger id_in(nfl, x)] #![trigger id_in(ofl, x)]
        id_in(nfl, x) <==> (id_in(ofl, x) && x != id))
    &&& (forall|x: u32| #![trigger text_in(nfl, x)] #![trigger text_in(ofl, x)]
        x != id && id_in(ofl, x) ==> text_in(nfl, x) == text_in(ofl, x))
}

/// Replacing the entry at `i` (which already names `id`) writes its text.
proof fn lemma_upsert_replace(
    ofl: Seq<(u32, Seq<char>)>,
    nfl: Seq<(u32, Seq<char>)>,
    i: int,
    id: u32,
    text: Seq<char>,
)
    requires
        distinct_ids(ofl),
        0 <= i < ofl.len(),
        ofl[i].0 == id,
        nfl == ofl.update(i, (id, text)),
    ensures
        upserted(ofl, nfl, id, text),
{
    assert forall|a: int, b2: int|
        0 <= a < b2 < nfl.len() implies (#[trigger] nfl[a]).0 != (#[trigger] nfl[b2]).0 by {
        assert(ofl[a].0 != ofl[b2].0);
    }
    lemma_text_in(nfl, i);
    assert forall|x: u32| #![trigger id_in(nfl, x)] #![trigger id_in(ofl, x)]
        id_in(nfl, x) <==> (id_in(ofl, x) || x == id) by {
        if id_in(nfl, x) {
            let j = choose|j: int| 0 <= j < nfl.len() && (#[trigger] nfl[j]).0 == x;
            if j != i {
                assert(ofl[j].0 == x);
                assert(id_in(ofl, x));
            }
        }
        if id_in(ofl, x) {
            let j = choose|j: int| 0 <= j < ofl.len() && (#[trigger] ofl[j]).0 == x;
            if j != i {
                assert(nfl[j].0 == x);
                assert(id_in(nfl, x));
            } else {
                assert(nfl[i].0 == id);
                assert(id_in(nfl, x));
            }
        }
    }
    assert forall|x: u32| #![trigger text_in(nfl, x)] #![trigger text_in(ofl, x)]
        x != id && id_in(ofl, x) implies text_in(nfl, x) == text_in(ofl, x) by {
        let j = choose|j: int| 0 <= j < ofl.len() && (#[trigger] ofl[j]).0 == x;
        assert(j != i);
        assert(nfl[j] == ofl[j]);
        lemma_text_in(ofl, j);
        lemma_text_in(nfl, j);
    }
}

/// Appending an entry for an id the list does not know writes its text.
proof fn lemma_upsert_append(
    ofl: Seq<(u32, Seq<char>)>,
    nfl: Seq<(u32, Seq<char>)>,
    id: u32,
    text: Seq<char>,
)
    requires
        distinct_ids(ofl),
        !id_in(ofl, id),
        nfl == ofl.push((id, text)),
    ensures
        upserted(ofl, nfl, id, text),
{
    assert forall|a: int, b2: int|
        0 <= a < b2 < nfl.len() implies (#[trigger] nfl[a]).0 != (#[trigger] nfl[b2]).0 by {
        if b2 < nfl.len() - 1 {
            assert(nfl[a] == ofl[a] && nfl[b2] == ofl[b2]);
        } else {
            assert(nfl[a] == ofl[a]);
            if ofl[a].0 == id {
                assert(id_in(ofl, id));
            }
        }
    }
    lemma_text_in(nfl, nfl.len() - 1);
    assert forall|x: u32| #![trigger id_in(nfl, x)] #![trigger id_in(ofl, x)]
        id_in(nfl, x) <==> (id_in(ofl, x) || x == id) by {
        if id_in(nfl, x) {
            let j = choose|j: int| 0 <= j < nfl.len() && (#[trigger] nfl[j]).0 == x;
            if j < nfl.len() - 1 {
                assert(ofl[j].0 == x);
                assert(id_in(ofl, x));
            }
        }
        if id_in(ofl, x) {
            let j = choose|j: int| 0 <= j < ofl.len() && (#[trigger] ofl[j]).0 == x;
            assert(nfl[j].0 == x);
            assert(id_in(nfl, x));
        }
    }
    assert forall|x: u32| #![trigger text_in(nfl, x)] #![trigger text_in(ofl, x)]
        x != id && id_in(ofl, x) implies text_in(nfl, x) == text_in(ofl, x) by {
        let j = choose|j: int| 0 <= j < ofl.len() && (#[trigger] ofl[j]).0 == x;
        assert(nfl[j] == ofl[j]);
        lemma_text_in(ofl, j);
        lemma_text_in(nfl, j);
    }
}

/// Removing the entry at `i` (the one naming `id`) deletes the file.
proof fn lemma_remove_at(ofl: Seq<(u32, Seq<char>)>, nfl: Seq<(u32, Seq<char>)>, i: int, id: u32)
    requires
        distinct_ids(ofl),
        0 <= i < ofl.len(),
        ofl[i].0 == id,
        nfl == ofl.remove(i),
    ensures
        removed(ofl, nfl, id),
{
    assert forall|a: int, b2: int|
        0 <= a < b2 < nfl.len() implies (#[trigger] nfl[a]).0 != (#[trigger] nfl[b2]).0 by {
        let a0 = if a < i { a } else { a + 1 };
        let b0 = if b2 < i { b2 } else { b2 + 1 };
        assert(nfl[a] == ofl[a0] && nfl[b2] == ofl[b0]);
    }
    assert forall|x: u32| #![trigger id_in(nfl, x)] #![trigger id_in(ofl, x)]
        id_in(nfl, x) <==> (id_in(ofl, x) && x != id) by {
        if id_in(nfl, x) {
            let j = choose|j: int| 0 <= j < nfl.len() && (#[trigger] nfl[j]).0 == x;
            let j0 = if j < i { j } else { j + 1 };
            assert(ofl[j0].0 == x);
            assert(id_in(ofl, x));
            if x == id {
                assert(j0 != i);
                assert(false);
            }
        }
        if id_in(ofl, x) && x != id {
            let j = choose|j: int| 0 <= j < ofl.len() && (#[trigger] ofl[j]).0 == x;
            assert(j != i);
            let j1 = if j < i { j } else { j - 1 };
            assert(nfl[j1] == ofl[j]);
            assert(id_in(nfl, x));
        }
    }
    assert forall|x: u32| #![trigger text_in(nfl, x)] #![trigger text_in(ofl, x)]
        x != id && id_in(ofl, x) implies text_in(nfl, x) == text_in(ofl, x) by {
        let j = choose|j: int| 0 <= j < ofl.len() && (#[trigger] ofl[j]).0 == x;
        assert(j != i);
        let j1 = if j < i { j } else { j - 1 };
        assert(nfl[j1] == ofl[j]);
        lemma_text_in(ofl, j);
        lemma_text_in(nfl, j1);
    }
}

/// Deleting an id the list does not know changes nothing.
proof fn lemma_remove_absent(ofl: Seq<(u32, Seq<char>)>, id: u32)
    requires
        distinct_ids(ofl),
        !id_in(ofl, id),
    ensures
        removed(ofl, ofl, id),
{
    assert forall|x: u32| #![trigger id_in(ofl, x)]
        id_in(ofl, x) <==> (id_in(ofl, x) && x != id) by {
        if id_in(ofl, x) && x == id {
            assert(id_in(ofl, id));
            assert(false);
        }
    }
}

/// Writes `text` as the text of `id`, creating the file if absent.
fn upsert(files: &mut Vec<(FileId, String)>, id: FileId, text: String)
    requires
        distinct_ids(file_list_of(old(files)@)),
    ensures
        upserted(file_list_of(old(files)@), file_list_of(final(files)@), id.0, text@),
{
    let ghost ofl = file_list_of(files@);
    match find_file(files, id.0) {
        Some(i) => {
            files.remove(i);
            files.insert(i, (id, text));
            proof {
                let nfl = file_list_of(files@);
                assert(nfl =~= ofl.update(i as int, (id.0, text@)));
                lemma_upsert_replace(ofl, nfl, i as int, id.0, text@);
            }
        },
        None => {
            files.push((id, text));
            proof {
                let nfl = file_list_of(files@);
                assert(nfl =~= ofl.push((id.0, text@)));
                assert(!id_in(ofl, id.0)) by {
                    if id_in(ofl, id.0) {
                        let j = choose|j: int| 0 <= j < ofl.len() && (#[trigger] ofl[j]).0
                            == id.0;
                        assert(ofl[j] == (old(files)@[j].0.0, old(files)@[j].1@));
                        assert(old(files)@[j].0.0 != id.0);
                    }
                }
                lemma_upsert_append(ofl, nfl, id.0, text@);
            }
        },
    }
}

/// Removes `id` and its text, if present.
fn remove_file(files: &mut Vec<(FileId, String)>, id: u32)
    requires
        distinct_ids(file_list_of(old(files)@)),
    ensures
        removed(file_list_of(old(files)@), file_list_of(final(files)@), id),
{
    let ghost ofl = file_list_of(files@);
    match find_file(files, id) {
        Some(i) => {
            files.remove(i);
            proof {
                let nfl = file_list_of(files@);
                assert(nfl =~= ofl.remove(i as int));
                lemma_remove_at(ofl, nfl, i as int, id);
            }
        },
        None => {
            proof {
                assert(!id_in(ofl, id)) by {
                    if id_in(ofl, id) {
                        let j = choose|j: int| 0 <= j < ofl.len() && (#[trigger] ofl[j]).0
                            == id;
                        assert(ofl[j] == (old(files)@[j].0.0, old(files)@[j].1@));
                        assert(old(files)@[j].0.0 != id);
                    }
                }
                lemma_remove_absent(ofl, id);
                assert(file_list_of(files@) =~= ofl);
            }
        },
    }
}

/// Whether the whole batch gives `id` new text anywhere.
fn has_set(changes: &Vec<(FileId, Option<String>)>, id: u32) -> (r: bool)
    ensures
        r == batch_sets(changes@, id),
{
    let mut i: usize = 0;
    while i < changes.len()
        invariant
            i <= changes.len(),
            forall|k: int|
                0 <= k < i ==> !((#[trigger] changes@[k]).0.0 == id && changes@[k].1 is Some),
        decreases changes.len() - i,
    {
        let is_set = match &changes[i].1 {
            Some(_) => true,
            None => false,
        };
        if changes[i].0.0 == id && is_set {
            proof {
                assert(batch_sets(changes@, id));
            }
            return true;
        }
        i = i + 1;
    }
    false
}

/// Stale-read token: remembers the revision that was current when a read
/// began, so that finishing the read can detect a newer snapshot.
#[derive(Debug)]
pub struct ReadToken {
    revision: u64,
}

impl ReadToken {
    /// The revision the read started from.
    pub closed spec fn rev(&self) -> u64 {
        self.revision
    }
}

/// A collection of files backed by a revision-tagged store; membership and
/// text are updated by explicit batched edits, derived artifacts are
/// recomputed lazily, and a read begun before an edit batch committed
/// resolves to `Canceled`.
#[derive(Debug)]
pub struct WritableSourceRoot {
    revision: u64,
    files: Vec<(FileId, String)>,
    resolver: FileResolver,
}

impl WritableSourceRoot {
    /// The current membership and text, in store order.
    pub closed spec fn file_list(&self) -> Seq<(u32, Seq<char>)> {
        file_list_of(self.files@)
    }

    /// The active resolver.
    pub closed spec fn resolver_view(&self) -> Seq<(Seq<char>, u32)> {
        self.resolver@
    }

    /// The current input revision; it only grows, one step per edit batch.
    pub closed spec fn rev(&self) -> u64 {
        self.revision
    }

    /// Well-formedness: each file id appears at most once.
    pub closed spec fn inv(&self) -> bool {
        distinct_ids(file_list_of(self.files@))
    }

    /// An empty root: no files, no resolutions, revision zero.
    pub fn new() -> (r: WritableSourceRoot)
        ensures
            r.inv(),
            r.rev() == 0,
            r.file_list() == Seq::<(u32, Seq<char>)>::empty(),
            r.resolver_view() == Seq::<(Seq<char>, u32)>::empty(),
    {
        let r = WritableSourceRoot {
            revision: 0,
            files: Vec::new(),
            resolver: FileResolver::empty(),
        };
        proof {
            assert(file_list_of(r.files@) =~= Seq::<(u32, Seq<char>)>::empty());
        }
        r
    }

    /// Applies one edit batch. Deletions and sets are accumulated as sets
    /// of ids over the whole batch: a set anywhere in the batch wins over
    /// a deletion of the same id, whatever their order, and only ids that
    /// appear exclusively as deletions leave the membership. Text written
    /// by a set is the last text the batch gives that id. The resolver is
    /// replaced when an override is supplied, else kept. Nothing derived
    /// is recomputed here; the revision advances, so stale in-flight reads
    /// cancel.
    pub fn apply_changes(
        &mut self,
        changes: &Vec<(FileId, Option<String>)>,
        file_resolver: Option<FileResolver>,
    )
        requires
            old(self).inv(),
            old(self).rev() < u64::MAX,
        ensures
            final(self).inv(),
            final(self).rev() == old(self).rev() + 1,
            forall|id: u32|
                #![trigger id_in(final(self).file_list(), id)]
                #![trigger id_in(old(self).file_list(), id)]
                id_in(final(self).file_list(), id) <==> ((id_in(old(self).file_list(), id)
                    && !batch_removes(changes@, id)) || batch_sets(changes@, id)),
            forall|id: u32|
                #![trigger last_set_text(changes@, id)]
                #![trigger text_in(final(self).file_list(), id)]
                batch_sets(changes@, id) ==> text_in(final(self).file_list(), id)
                    == last_set_text(changes@, id),
            forall|id: u32|
                #![trigger text_in(final(self).file_list(), id)]
                #![trigger text_in(old(self).file_list(), id)]
                id_in(final(self).file_list(), id) && !batch_sets(changes@, id)
                    ==> text_in(final(self).file_list(), id) == text_in(
                    old(self).file_list(),
                    id,
                ),
            match file_resolver {
                Some(res) => final(self).resolver_view() == res@,
                None => final(self).resolver_view() == old(self).resolver_view(),
            },
    {
        let ghost b = changes@;
        let ghost ofl = file_list_of(self.files@);

        let mut k: usize = 0;
        while k < changes.len()
            invariant
                b == changes@,
                k <= b.len(),
                distinct_ids(file_list_of(self.files@)),
                self.revision == old(self).revision,
                self.resolver == old(self).resolver,
                forall|x: u32|
                    #![trigger id_in(file_list_of(self.files@), x)]
                    #![trigger id_in(ofl, x)]
                    id_in(file_list_of(self.files@), x) <==> (id_in(ofl, x) || batch_sets(
                        b.take(k as int),
                        x,
                    )),
                forall|x: u32|
                    #![trigger batch_sets(b.take(k as int), x)]
                    batch_sets(b.take(k as int), x) ==> (id_in(file_list_of(self.files@), x)
                        && text_in(file_list_of(self.files@), x) == last_set_text(
                        b.take(k as int),
                        x,
                    )),
                forall|x: u32|
                    #![trigger text_in(file_list_of(self.files@), x)]
                    #![trigger text_in(ofl, x)]
                    !batch_sets(b.take(k as int), x) && id_in(ofl, x) ==> text_in(
                        file_list_of(self.files@),
                        x,
                    ) == text_in(ofl, x),
            decreases changes.len() - k,
        {
            match &changes[k].1 {
                Some(text) => {
                    upsert(&mut self.files, changes[k].0, text.clone());
                },
                None => {},
            }
            k = k + 1;
            proof {
                lemma_batch_take_step(b, k - 1);
            }
        }
        proof {
            assert(b.take(b.len() as int) =~= b);
        }
        let ghost mfl = file_list_of(self.files@);

        let mut k2: usize = 0;
        while k2 < changes.len()
            invariant
                b == changes@,
                k2 <= b.len(),
                distinct_ids(file_list_of(self.files@)),
                self.revision == old(self).revision,
                self.resolver == old(self).resolver,
                forall|x: u32|
                    #![trigger id_in(file_list_of(self.files@), x)]
                    #![trigger id_in(mfl, x)]
                    id_in(file_list_of(self.files@), x) <==> (id_in(mfl, x) && !(
                    batch_removes(b.take(k2 as int), x) && !batch_sets(b, x))),
                forall|x: u32|
                    #![trigger text_in(file_list_of(self.files@), x)]
                    #![trigger text_in(mfl, x)]
                    id_in(file_list_of(self.files@), x) ==> text_in(
                        file_list_of(self.files@),
                        x,
                    ) == text_in(mfl, x),
            decreases changes.len() - k2,
        {
            let is_removal = match &changes[k2].1 {
                Some(_) => false,
                None => true,
            };
            if is_removal {
                let id = changes[k2].0;
                if !has_set(changes, id.0) {
                    remove_file(&mut self.files, id.0);
                }
            }
            k2 = k2 + 1;
            proof {
                lemma_batch_take_step(b, k2 - 1);
            }
        }
        proof {
            assert(b.take(b.len() as int) =~= b);
        }

        match file_resolver {
            Some(res) => {
                self.resolver = res;
            },
            None => {},
        }
        self.revision = self.revision + 1;
    }

    /// Whether the file is in the current membership.
    pub fn contains(&self, file_id: FileId) -> (r: bool)
        requires
            self.inv(),
        ensures
            r == id_in(self.file_list(), file_id.0),
    {
        match find_file(&self.files, file_id.0) {
            Some(i) => {
                proof {
                    assert(self.file_list()[i as int].0 == file_id.0);
                }
                true
            },
            None => {
                proof {
                    if id_in(self.file_list(), file_id.0) {
                        let j = choose|j: int|
                            0 <= j < self.file_list().len() && (#[trigger] self.file_list()[j]).0
                                == file_id.0;
                        assert(self.files@[j].0.0 == file_id.0);
                    }
                }
                false
            },
        }
    }

    /// The file's line index, recomputed from the current text.
    pub fn lines(&self, file_id: FileId) -> (r: Arc<LineIndex>)
        requires
            self.inv(),
            id_in(self.file_list(), file_id.0),
        ensures
            r@ == line_starts(text_in(self.file_list(), file_id.0)),
    {
        match find_file(&self.files, file_id.0) {
            Some(i) => {
                proof {
                    assert(self.file_list()[i as int] == (
                        self.files@[i as int].0.0,
                        self.files@[i as int].1@,
                    ));
                    lemma_text_in(self.file_list(), i as int);
                }
                Arc::new(LineIndex::new(self.files[i].1.as_str()))
            },
            None => {
                proof {
                    let j = choose|j: int|
                        0 <= j < self.file_list().len() && (#[trigger] self.file_list()[j]).0
                            == file_id.0;
                    assert(self.files@[j].0.0 == file_id.0);
                }
                vstd::pervasive::unreached()
            },
        }
    }

    /// The file's syntax tree, recomputed from the current text.
    pub fn syntax(&self, file_id: FileId) -> (r: Arc<SyntaxTree>)
        requires
            self.inv(),
            id_in(self.file_list(), file_id.0),
        ensures
            r@ == parse_spec(text_in(self.file_list(), file_id.0)),
    {
        match find_file(&self.files, file_id.0) {
            Some(i) => {
                proof {
                    assert(self.file_list()[i as int] == (
                        self.files@[i as int].0.0,
                        self.files@[i as int].1@,
                    ));
                    lemma_text_in(self.file_list(), i as int);
                }
                Arc::new(parse(self.files[i].1.as_str()))
            },
            None => {
                proof {
                    let j = choose|j: int|
                        0 <= j < self.file_list().len() && (#[trigger] self.file_list()[j]).0
                            == file_id.0;
                    assert(self.files@[j].0.0 == file_id.0);
                }
                vstd::pervasive::unreached()
            },
        }
    }

    /// The current text of the file; membership is a caller obligation.
    pub fn file_text(&self, file_id: FileId) -> (r: String)
        requires
            self.inv(),
            id_in(self.file_list(), file_id.0),
        ensures
            r@ == text_in(self.file_list(), file_id.0),
    {
        match find_file(&self.files, file_id.0) {
            Some(i) => {
                proof {
                    assert(self.file_list()[i as int] == (
                        self.files@[i as int].0.0,
                        self.files@[i as int].1@,
                    ));
                    lemma_text_in(self.file_list(), i as int);
                }
                self.files[i].1.clone()
            },
            None => {
                proof {
                    let j = choose|j: int|
                        0 <= j < self.file_list().len() && (#[trigger] self.file_list()[j]).0
                            == file_id.0;
                    assert(self.files@[j].0.0 == file_id.0);
                }
                vstd::pervasive::unreached()
            },
        }
    }

    /// The module graph of the current snapshot, recomputed lazily from
    /// the stored texts and the active resolver.
    pub fn module_tree(&self) -> (r: Cancelable<Arc<ModuleTreeDescriptor>>)
        requires
            self.inv(),
        ensures
            r is Ok,
            r matches Ok(t) ==> t@ == tree_of_files(self.file_list(), self.resolver_view()),
    {
        let mut tree_input: Vec<(FileId, ModuleDescriptor)> = Vec::new();
        let mut i: usize = 0;
        while i < self.files.len()
            invariant
                i <= self.files.len(),
                tree_input@.len() == i,
                forall|k: int|
                    0 <= k < i ==> {
                        &&& (#[trigger] tree_input@[k]).0 == self.files@[k].0
                        &&& tree_input@[k].1@ == modules_of_text(self.files@[k].1@)
                    },
            decreases self.files.len() - i,
        {
            let tree = parse(self.files[i].1.as_str());
            let descr = ModuleDescriptor::new(&tree);
            tree_input.push((self.files[i].0, descr));
            i = i + 1;
        }
        let t = ModuleTreeDescriptor::new(&tree_input, &self.resolver);
        proof {
            assert(tree_input@.map_values(|f: (FileId, ModuleDescriptor)| (f.0.0, f.1@))
                =~= self.file_list().map_values(
                |f: (u32, Seq<char>)| (f.0, modules_of_text(f.1)),
            ));
        }
        Ok(Arc::new(t))
    }

    /// Appends one symbol index handle per member file, in store order.
    pub fn symbols(&self, acc: &mut Vec<Arc<SymbolIndex>>) -> (r: Cancelable<()>)
        requires
            self.inv(),
        ensures
            r is Ok,
            final(acc)@.len() == old(acc)@.len() + self.file_list().len(),
            final(acc)@.subrange(0, old(acc)@.len() as int) == old(acc)@,
            forall|j: int|
                0 <= j < self.file_list().len() ==> (#[trigger] final(acc)@[old(acc)@.len()
                    + j])@ == text_symbols(self.file_list()[j].0, self.file_list()[j].1),
    {
        let mut i: usize = 0;
        while i < self.files.len()
            invariant
                i <= self.files.len(),
                acc@.len() == old(acc)@.len() + i,
                acc@.subrange(0, old(acc)@.len() as int) =~= old(acc)@,
                forall|j: int|
                    0 <= j < i ==> (#[trigger] acc@[old(acc)@.len() + j])@ == text_symbols(
                        self.file_list()[j].0,
                        self.file_list()[j].1,
                    ),
            decreases self.files.len() - i,
        {
            let tree = parse(self.files[i].1.as_str());
            let idx = SymbolIndex::for_file(self.files[i].0, &tree);
            acc.push(Arc::new(idx));
            i = i + 1;
            proof {
                assert(acc@.subrange(0, old(acc)@.len() as int) =~= old(acc)@);
                assert(self.file_list()[i - 1] == (
                    self.files@[i - 1].0.0,
                    self.files@[i - 1].1@,
                ));
            }
        }
        Ok(())
    }

    /// The current input revision.
    pub fn revision(&self) -> (r: u64)
        ensures
            r == self.rev(),
    {
        self.revision
    }

    /// Starts a read against the current snapshot.
    pub fn begin_read(&self) -> (t: ReadToken)
        ensures
            t.rev() == self.rev(),
    {
        ReadToken { revision: self.revision }
    }

    /// Fails exactly when an edit batch committed after the read began.
    pub fn check_canceled(&self, t: &ReadToken) -> (r: Cancelable<()>)
        ensures
            r is Ok <==> t.rev() == self.rev(),
    {
        if t.revision == self.revision {
            Ok(())
        } else {
            Err(Canceled)
        }
    }

    /// Finishes a symbol read begun at `t`: appends this root's handles
    /// exactly when no edit batch committed since the read began; a stale
    /// read resolves to `Canceled` and leaves the accumulator untouched.
    pub fn symbols_checked(&self, t: &ReadToken, acc: &mut Vec<Arc<SymbolIndex>>) -> (r:
        Cancelable<()>)
        requires
            self.inv(),
        ensures
            r is Ok <==> t.rev() == self.rev(),
            r is Ok ==> {
                &&& final(acc)@.len() == old(acc)@.len() + self.file_list().len()
                &&& final(acc)@.subrange(0, old(acc)@.len() as int) == old(acc)@
                &&& forall|j: int|
                    0 <= j < self.file_list().len() ==> (#[trigger] final(acc)@[old(acc)@.len()
                        + j])@ == text_symbols(self.file_list()[j].0, self.file_list()[j].1)
            },
            r is Err ==> final(acc)@ == old(acc)@,
    {
        match self.check_canceled(t) {
            Ok(()) => self.symbols(acc),
            Err(c) => Err(c),
        }
    }

    /// Finishes a module-graph read begun at `t`: succeeds, with the graph
    /// of the current snapshot, exactly when no edit batch committed since
    /// the read began; a stale read resolves to `Canceled`, never to a
    /// result mixing two snapshots.
    pub fn module_tree_checked(&self, t: &ReadToken) -> (r: Cancelable<Arc<ModuleTreeDescriptor>>)
        requires
            self.inv(),
        ensures
            r is Ok <==> t.rev() == self.rev(),
            r matches Ok(tree) ==> tree@ == tree_of_files(
                self.file_list(),
                self.resolver_view(),
            ),
    {
        match self.check_canceled(t) {
            Ok(()) => self.module_tree(),
            Err(c) => Err(c),
        }
    }
}

impl Default for WritableSourceRoot {
    /// An empty root, as [`WritableSourceRoot::new`] builds it.
    fn default() -> (r: WritableSourceRoot)
        ensures
            r.inv(),
            r.rev() == 0,
            r.file_list() == Seq::<(u32, Seq<char>)>::empty(),
            r.resolver_view() == Seq::<(Seq<char>, u32)>::empty(),
    {
        WritableSourceRoot::new()
    }
}

} // verus!

