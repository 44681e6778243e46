//! The immutable root: a fixed collection of memo cells plus eagerly
//! computed whole-root aggregates, built once in parallel at construction.

use vstd::prelude::*;
use vstd::pervasive::unreached;
use std::collections::HashMap;
use std::sync::Arc;
use rayon::iter::{IntoParallelRefIterator, ParallelIterator};
use crate::{Cancelable, FileId, distinct_ids, file_list_of, id_in, lemma_text_in, text_in};
use crate::descriptors::{ModuleDescriptor, ModuleTreeDescriptor, tree_of_files};
use crate::line_index::{LineIndex, line_starts};
use crate::memo::{FileData, arc_clone};
use crate::resolver::FileResolver;
use crate::symbol_index::{
    SymbolIndex, file_symbols_from, lemma_merged_matches, root_symbols_from, text_symbols,
};
use crate::text::{SyntaxTree, modules_of_text, parse_spec};

verus! {

broadcast use vstd::std_specs::hash::group_hash_axioms;

/// Parses one file and extracts its module descriptor; independent per
/// file, with no shared mutable state.
fn summarize(file_id: FileId, text: &String) -> (r: (FileId, SyntaxTree, ModuleDescriptor))
    ensures
        r.0 == file_id,
        r.1@ == parse_spec(text@),
        r.2@ == modules_of_text(text@),
{
    let tree = crate::text::parse(text.as_str());
    let descr = ModuleDescriptor::new(&tree);
    (file_id, tree, descr)
}

/// Relies on rayon's `par_iter`, `map` and `collect`: the function runs on
/// each element independently and the collected vector keeps the input
/// order, whatever order the parallel work completes in.
#[verifier::external_body]
fn par_summaries(files: &Vec<(FileId, String)>) -> (r: Vec<(FileId, SyntaxTree, ModuleDescriptor)>)
    ensures
        r@.len() == files@.len(),
        forall|i: int|
            0 <= i < files@.len() ==> {
                &&& (#[trigger] r@[i]).0 == files@[i].0
                &&& r@[i].1@ == parse_spec(files@[i].1@)
                &&& r@[i].2@ == modules_of_text(files@[i].1@)
            },
{
    files.par_iter().map(|p| summarize(p.0, &p.1)).collect()
}

/// Relies on the same rayon operations: per-file symbol extraction runs
/// independently per element and the collected vector keeps the input
/// order.
#[verifier::external_body]
fn par_symbols(summaries: &Vec<(FileId, SyntaxTree, ModuleDescriptor)>) -> (r: Vec<SymbolIndex>)
    ensures
        r@.len() == summaries@.len(),
        forall|i: int|
            0 <= i < summaries@.len() ==> (#[trigger] r@[i])@ == file_symbols_from(
                summaries@[i].0.0,
                summaries@[i].1@,
                0,
            ),
{
    summaries.par_iter().map(|p| SymbolIndex::for_file(p.0, &p.1)).collect()
}

/// A fixed collection of memo cells plus an eagerly computed module graph
/// and symbol index; read-only for its whole life.
pub struct ReadonlySourceRoot {
    symbol_index: Arc<SymbolIndex>,
    file_map: HashMap<u32, FileData>,
    module_tree: Arc<ModuleTreeDescriptor>,
    files: Ghost<Seq<(u32, Seq<char>)>>,
    resolver: Ghost<Seq<(Seq<char>, u32)>>,
}

impl ReadonlySourceRoot {
    /// The membership, text and order the root was built from.
    pub closed spec fn file_list(&self) -> Seq<(u32, Seq<char>)> {
        self.files@
    }

    /// The resolver the root was built with.
    pub closed spec fn resolver_view(&self) -> Seq<(Seq<char>, u32)> {
        self.resolver@
    }

    /// Well-formedness: the aggregates and the cells agree with the file
    /// list and the resolver the root was built from.
    pub closed spec fn inv(&self) -> bool {
        &&& distinct_ids(self.files@)
        &&& forall|id: u32| self.file_map@.dom().contains(id) <==> id_in(self.files@, id)
        &&& forall|i: int|
            0 <= i < self.files@.len() ==> {
                &&& self.file_map@.dom().contains((#[trigger] self.files@[i]).0)
                &&& self.file_map@[self.files@[i].0].text_view() == self.files@[i].1
            }
        &&& self.module_tree@ == tree_of_files(self.files@, self.resolver@)
        &&& self.symbol_index@ == root_symbols_from(self.files@, 0)
    }

    /// Builds the root: parses every file and extracts its module
    /// descriptor in parallel, then joins the descriptors with the
    /// resolver into one module graph and merges the per-file symbol
    /// indexes, both deterministic functions of the file list and the
    /// resolver alone, regardless of how the parallel phase is scheduled.
    /// Syntax trees built here are discarded; later reads recompute and
    /// memoize them per file.
    pub fn new(files: Vec<(FileId, String)>, file_resolver: FileResolver) -> (r:
        ReadonlySourceRoot)
        requires
            distinct_ids(file_list_of(files@)),
        ensures
            r.inv(),
            r.file_list() == file_list_of(files@),
            r.resolver_view() == file_resolver@,
    {
        let ghost fs = files@;
        let ghost fv = file_list_of(files@);
        let summaries = par_summaries(&files);

        let mut tree_input: Vec<(FileId, ModuleDescriptor)> = Vec::new();
        let mut i: usize = 0;
        while i < summaries.len()
            invariant
                summaries@.len() == fs.len(),
                forall|k: int|
                    0 <= k < fs.len() ==> {
                        &&& (#[trigger] summaries@[k]).0 == fs[k].0
                        &&& summaries@[k].1@ == parse_spec(fs[k].1@)
                        &&& summaries@[k].2@ == modules_of_text(fs[k].1@)
                    },
                i <= summaries.len(),
                tree_input@.len() == i,
                forall|k: int|
                    0 <= k < i ==> {
                        &&& (#[trigger] tree_input@[k]).0 == fs[k].0
                        &&& tree_input@[k].1@ == modules_of_text(fs[k].1@)
                    },
            decreases summaries.len() - i,
        {
            tree_input.push((summaries[i].0, summaries[i].2.clone()));
            i = i + 1;
        }
        let module_tree = ModuleTreeDescriptor::new(&tree_input, &file_resolver);
        proof {
            assert(tree_input@.map_values(|f: (FileId, ModuleDescriptor)| (f.0.0, f.1@))
                =~= fv.map_values(|f: (u32, Seq<char>)| (f.0, modules_of_text(f.1))));
        }

        let sym_parts = par_symbols(&summaries);
        let symbol_index = SymbolIndex::merge(&sym_parts);
        proof {
            let pv = sym_parts@.map_values(|p: SymbolIndex| p@);
            assert forall|k: int| 0 <= k < fv.len() implies pv[k] == text_symbols(
                (#[trigger] fv[k]).0,
                fv[k].1,
            ) by {
                assert(pv[k] == sym_parts@[k]@);
                assert(fv[k] == (fs[k].0.0, fs[k].1@));
            }
            lemma_merged_matches(pv, fv, 0);
        }

        let mut file_map: HashMap<u32, FileData> = HashMap::new();
        let mut rest = files;
        proof {
            assert(rest@ =~= fs.take(rest@.len() as int));
        }
        while rest.len() > 0
            invariant
                distinct_ids(fv),
                fv == file_list_of(fs),
                rest@ =~= fs.take(rest@.len() as int),
                rest@.len() <= fs.len(),
                forall|id: u32|
                    file_map@.dom().contains(id) <==> exists|k: int|
                        rest@.len() <= k < fs.len() && (#[trigger] fs[k]).0.0 == id,
                forall|k: int|
                    rest@.len() <= k < fs.len() ==> {
                        &&& file_map@.dom().contains((#[trigger] fs[k]).0.0)
                        &&& file_map@[fs[k].0.0].text_view() == fs[k].1@
                    },
            decreases rest.len(),
        {
            let ghost m = rest@.len() as int;
            let p = rest.pop().unwrap();
            proof {
                assert(p == fs.take(m).last());
                assert(p == fs[m - 1]);
                assert(rest@ =~= fs.take(m - 1));
                assert forall|k: int| m <= k < fs.len() implies (#[trigger] fs[k]).0.0 != fs[m
                    - 1].0.0 by {
                    assert(fv[m - 1].0 == fs[m - 1].0.0);
                    assert(fv[k].0 == fs[k].0.0);
                    assert(fv[m - 1].0 != fv[k].0);
                }
            }
            file_map.insert(p.0.0, FileData::new(p.1));
        }

        let r = ReadonlySourceRoot {
            symbol_index: Arc::new(symbol_index),
            file_map,
            module_tree: Arc::new(module_tree),
            files: Ghost(fv),
            resolver: Ghost(file_resolver@),
        };
        proof {
            assert forall|id: u32| r.file_map@.dom().contains(id) <==> id_in(fv, id) by {
                assert forall|k: int| 0 <= k < fs.len() implies (#[trigger] fv[k]).0
                    == fs[k].0.0 by {}
                if id_in(fv, id) {
                    let k = choose|k: int| 0 <= k < fv.len() && (#[trigger] fv[k]).0 == id;
                    assert(fs[k].0.0 == id);
                }
                if r.file_map@.dom().contains(id) {
                    let k = choose|k: int|
                        0 <= k < fs.len() && (#[trigger] fs[k]).0.0 == id;
                    assert(fv[k].0 == id);
                }
            }
            assert forall|i2: int| 0 <= i2 < fv.len() implies {
                &&& r.file_map@.dom().contains((#[trigger] fv[i2]).0)
                &&& r.file_map@[fv[i2].0].text_view() == fv[i2].1
            } by {
                assert(fv[i2] == (fs[i2].0.0, fs[i2].1@));
            }
        }
        r
    }

    /// The memo cell of `file_id`; membership is a caller obligation.
    fn data(&self, file_id: FileId) -> (r: &FileData)
        requires
            self.inv(),
            id_in(self.file_list(), file_id.0),
        ensures
            r.text_view() == text_in(self.file_list(), file_id.0),
    {
        proof {
            let i = choose|i: int|
                0 <= i < self.files@.len() && (#[trigger] self.files@[i]).0 == file_id.0;
            lemma_text_in(self.files@, i);
        }
        match self.file_map.get(&file_id.0) {
            Some(data) => data,
            None => unreached(),
        }
    }

    /// Whether the file is part of the root.
    pub fn contains(&self, file_id: FileId) -> (r: bool)
        requires
            self.inv(),
        ensures
            r == id_in(self.file_list(), file_id.0),
    {
        self.file_map.contains_key(&file_id.0)
    }

    /// The module graph fixed at construction; never cancels.
    pub fn module_tree(&self) -> (r: Cancelable<Arc<ModuleTreeDescriptor>>)
        requires
            self.inv(),
        ensures
            r is Ok,
            r matches Ok(t) ==> t@ == tree_of_files(self.file_list(), self.resolver_view()),
    {
        Ok(arc_clone(&self.module_tree))
    }

    /// The file's line index, memoized per file on first access.
    pub fn lines(&self, file_id: FileId) -> (r: Arc<LineIndex>)
        requires
            self.inv(),
            id_in(self.file_list(), file_id.0),
        ensures
            r@ == line_starts(text_in(self.file_list(), file_id.0)),
    {
        self.data(file_id).lines()
    }

    /// The file's syntax tree, memoized per file on first access.
    pub fn syntax(&self, file_id: FileId) -> (r: Arc<SyntaxTree>)
        requires
            self.inv(),
            id_in(self.file_list(), file_id.0),
        ensures
            r@ == parse_spec(text_in(self.file_list(), file_id.0)),
    {
        self.data(file_id).syntax()
    }

    /// Appends this root's single shared symbol index handle; never
    /// cancels.
    pub fn symbols(&self, acc: &mut Vec<Arc<SymbolIndex>>) -> (r: Cancelable<()>)
        requires
            self.inv(),
        ensures
            r is Ok,
            final(acc)@.len() == old(acc)@.len() + 1,
            final(acc)@.subrange(0, old(acc)@.len() as int) == old(acc)@,
            final(acc)@.last()@ == root_symbols_from(self.file_list(), 0),
    {
        acc.push(arc_clone(&self.symbol_index));
        proof {
            assert(acc@.subrange(0, old(acc)@.len() as int) =~= old(acc)@);
        }
        Ok(())
    }
}

} // verus!
