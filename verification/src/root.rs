//! The root capability: the common contract both root variants satisfy,
//! consumed by an outer layer that does not need to know which variant it
//! is talking to.

use vstd::prelude::*;
use std::sync::Arc;
use crate::{Cancelable, FileId, id_in, text_in};
use crate::descriptors::{ModuleTreeDescriptor, tree_of_files};
use crate::line_index::{LineIndex, line_starts};
use crate::readonly::ReadonlySourceRoot;
use crate::symbol_index::{
    SymbolIndex, lemma_merged_matches, merged_from, root_symbols_from, text_symbols,
};
use crate::text::{SyntaxTree, parse_spec};
use crate::writable::WritableSourceRoot;

verus! {

/// A source root: a collection of files sharing one resolver, with derived
/// line indices, parse trees, a module graph and a symbol index.
pub trait SourceRoot: Sized {
    /// Whether the root is well formed.
    spec fn root_inv(&self) -> bool;

    /// The current membership and text, in the root's order.
    spec fn root_files(&self) -> Seq<(u32, Seq<char>)>;

    /// The active resolver, as a resolution table.
    spec fn root_resolver(&self) -> Seq<(Seq<char>, u32)>;

    /// The symbol listings one `symbols` call appends, batch by batch.
    spec fn symbol_batches(&self) -> Seq<Seq<(Seq<char>, u32)>>;

    /// However a variant batches its symbol handles, together the batches
    /// carry exactly the symbols of the root's files, in file order.
    proof fn lemma_symbols_cover(&self)
        requires
            self.root_inv(),
        ensures
            merged_from(self.symbol_batches(), 0) == root_symbols_from(self.root_files(), 0),
    ;

    /// True exactly when the file is current membership.
    fn contains(&self, file_id: FileId) -> (r: bool)
        requires
            self.root_inv(),
        ensures
            r == id_in(self.root_files(), file_id.0),
    ;

    /// The whole-root module graph for the current snapshot.
    fn module_tree(&self) -> (r: Cancelable<Arc<ModuleTreeDescriptor>>)
        requires
            self.root_inv(),
        ensures
            r is Ok,
            r matches Ok(t) ==> t@ == tree_of_files(self.root_files(), self.root_resolver()),
    ;

    /// The file's line index; membership is a caller obligation.
    fn lines(&self, file_id: FileId) -> (r: Arc<LineIndex>)
        requires
            self.root_inv(),
            id_in(self.root_files(), file_id.0),
        ensures
            r@ == line_starts(text_in(self.root_files(), file_id.0)),
    ;

    /// The file's parse tree; membership is a caller obligation.
    fn syntax(&self, file_id: FileId) -> (r: Arc<SyntaxTree>)
        requires
            self.root_inv(),
            id_in(self.root_files(), file_id.0),
        ensures
            r@ == parse_spec(text_in(self.root_files(), file_id.0)),
    ;

    /// Appends this root's symbol index contribution(s).
    fn symbols(&self, acc: &mut Vec<Arc<SymbolIndex>>) -> (r: Cancelable<()>)
        requires
            self.root_inv(),
        ensures
            r is Ok,
            final(acc)@.len() == old(acc)@.len() + self.symbol_batches().len(),
            final(acc)@.subrange(0, old(acc)@.len() as int) == old(acc)@,
            forall|j: int|
                0 <= j < self.symbol_batches().len() ==> (#[trigger] final(acc)@[old(acc)@.len()
                    + j])@ == self.symbol_batches()[j],
    ;
}

impl SourceRoot for ReadonlySourceRoot {
    open spec fn root_inv(&self) -> bool {
        self.inv()
    }

    open spec fn root_files(&self) -> Seq<(u32, Seq<char>)> {
        self.file_list()
    }

    open spec fn root_resolver(&self) -> Seq<(Seq<char>, u32)> {
        self.resolver_view()
    }

    open spec fn symbol_batches(&self) -> Seq<Seq<(Seq<char>, u32)>> {
        seq![root_symbols_from(self.file_list(), 0)]
    }

    proof fn lemma_symbols_cover(&self) {
        let batches = seq![root_symbols_from(self.file_list(), 0)];
        assert(merged_from(batches, 1) =~= Seq::<(Seq<char>, u32)>::empty());
        assert(merged_from(batches, 0) =~= root_symbols_from(self.file_list(), 0));
    }

    fn contains(&self, file_id: FileId) -> (r: bool) {
        ReadonlySourceRoot::contains(self, file_id)
    }

    fn module_tree(&self) -> (r: Cancelable<Arc<ModuleTreeDescriptor>>) {
        ReadonlySourceRoot::module_tree(self)
    }

    fn lines(&self, file_id: FileId) -> (r: Arc<LineIndex>) {
        ReadonlySourceRoot::lines(self, file_id)
    }

    fn syntax(&self, file_id: FileId) -> (r: Arc<SyntaxTree>) {
        ReadonlySourceRoot::syntax(self, file_id)
    }

    fn symbols(&self, acc: &mut Vec<Arc<SymbolIndex>>) -> (r: Cancelable<()>) {
        let r = ReadonlySourceRoot::symbols(self, acc);
        proof {
            assert(acc@[old(acc)@.len() as int] == acc@.last());
        }
        r
    }
}

impl SourceRoot for WritableSourceRoot {
    open spec fn root_inv(&self) -> bool {
        self.inv()
    }

    open spec fn root_files(&self) -> Seq<(u32, Seq<char>)> {
        self.file_list()
    }

    open spec fn root_resolver(&self) -> Seq<(Seq<char>, u32)> {
        self.resolver_view()
    }

    open spec fn symbol_batches(&self) -> Seq<Seq<(Seq<char>, u32)>> {
        self.file_list().map_values(|f: (u32, Seq<char>)| text_symbols(f.0, f.1))
    }

    proof fn lemma_symbols_cover(&self) {
        let files = self.file_list();
        let parts = files.map_values(|f: (u32, Seq<char>)| text_symbols(f.0, f.1));
        lemma_merged_matches(parts, files, 0);
    }

    fn contains(&self, file_id: FileId) -> (r: bool) {
        WritableSourceRoot::contains(self, file_id)
    }

    fn module_tree(&self) -> (r: Cancelable<Arc<ModuleTreeDescriptor>>) {
        WritableSourceRoot::module_tree(self)
    }

    fn lines(&self, file_id: FileId) -> (r: Arc<LineIndex>) {
        WritableSourceRoot::lines(self, file_id)
    }

    fn syntax(&self, file_id: FileId) -> (r: Arc<SyntaxTree>) {
        WritableSourceRoot::syntax(self, file_id)
    }

    fn symbols(&self, acc: &mut Vec<Arc<SymbolIndex>>) -> (r: Cancelable<()>) {
        WritableSourceRoot::symbols(self, acc)
    }
}

} // verus!
