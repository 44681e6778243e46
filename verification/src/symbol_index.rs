//! Searchable aggregate of the symbols declared in one or more files.

use vstd::prelude::*;
use crate::FileId;
use crate::text::{Item, ItemView, SyntaxTree, parse_spec};

verus! {

/// One declared symbol: its name and the file that declares it.
#[derive(Debug)]
pub struct Symbol {
    pub name: String,
    pub file: FileId,
}

impl View for Symbol {
    type V = (Seq<char>, u32);

    open spec fn view(&self) -> (Seq<char>, u32) {
        (self.name@, self.file.0)
    }
}

impl Clone for Symbol {
    fn clone(&self) -> (r: Self)
        ensures
            r@ == self@,
    {
        Symbol { name: self.name.clone(), file: self.file }
    }
}

/// The symbols file `id` contributes, given its declarations, from
/// position `i` on: one per declared function.
pub open spec fn file_symbols_from(id: u32, items: Seq<ItemView>, i: int) -> Seq<
    (Seq<char>, u32),
>
    decreases items.len() - i,
{
    if i < 0 || i >= items.len() {
        Seq::empty()
    } else {
        (match items[i] {
            ItemView::ModDecl(_) => Seq::empty(),
            ItemView::FnDecl(n) => seq![(n, id)],
        }) + file_symbols_from(id, items, i + 1)
    }
}

/// The symbols of one file as a pure function of its id and text.
pub open spec fn text_symbols(id: u32, text: Seq<char>) -> Seq<(Seq<char>, u32)> {
    file_symbols_from(id, parse_spec(text), 0)
}

/// The symbols of a whole root, from file `i` on, in file order.
pub open spec fn root_symbols_from(files: Seq<(u32, Seq<char>)>, i: int) -> Seq<
    (Seq<char>, u32),
>
    decreases files.len() - i,
{
    if i < 0 || i >= files.len() {
        Seq::empty()
    } else {
        text_symbols(files[i].0, files[i].1) + root_symbols_from(files, i + 1)
    }
}

/// Concatenation of per-part symbol listings, from part `i` on.
pub open spec fn merged_from(parts: Seq<Seq<(Seq<char>, u32)>>, i: int) -> Seq<
    (Seq<char>, u32),
>
    decreases parts.len() - i,
{
    if i < 0 || i >= parts.len() {
        Seq::empty()
    } else {
        parts[i] + merged_from(parts, i + 1)
    }
}

/// Per-part listings that match a file list element for element merge to
/// the symbols of the whole root.
pub proof fn lemma_merged_matches(
    parts: Seq<Seq<(Seq<char>, u32)>>,
    files: Seq<(u32, Seq<char>)>,
    i: int,
)
    requires
        parts.len() == files.len(),
        0 <= i <= files.len(),
        forall|k: int|
            0 <= k < files.len() ==> parts[k] == text_symbols(
                (#[trigger] files[k]).0,
                files[k].1,
            ),
    ensures
        merged_from(parts, i) == root_symbols_from(files, i),
    decreases files.len() - i,
{
    if i < 0 || i >= files.len() {
        assert(merged_from(parts, i) =~= root_symbols_from(files, i));
    } else {
        lemma_merged_matches(parts, files, i + 1);
        assert(merged_from(parts, i) =~= root_symbols_from(files, i));
    }
}

/// Searchable collection of the symbols declared in one or more files.
#[derive(Debug)]
pub struct SymbolIndex {
    symbols: Vec<Symbol>,
}

impl View for SymbolIndex {
    type V = Seq<(Seq<char>, u32)>;

    closed spec fn view(&self) -> Seq<(Seq<char>, u32)> {
        self.symbols@.map_values(|s: Symbol| s@)
    }
}

impl SymbolIndex {
    /// The symbol contribution of one file, from its parse tree.
    pub fn for_file(file_id: FileId, tree: &SyntaxTree) -> (r: SymbolIndex)
        ensures
            r@ == file_symbols_from(file_id.0, tree@, 0),
    {
        let items = tree.items();
        let ghost tv = tree@;
        let mut symbols: Vec<Symbol> = Vec::new();
        let mut i: usize = 0;
        while i < items.len()
            invariant
                tv == items@.map_values(|it: Item| it@),
                i <= items.len(),
                symbols@.map_values(|s: Symbol| s@) + file_symbols_from(file_id.0, tv, i as int)
                    == file_symbols_from(file_id.0, tv, 0),
            decreases items.len() - i,
        {
            let ghost prev = symbols@.map_values(|s: Symbol| s@);
            match &items[i] {
                Item::FnDecl(n) => {
                    symbols.push(Symbol { name: n.clone(), file: file_id });
                    proof {
                        assert(symbols@.map_values(|s: Symbol| s@) =~= prev.push(
                            (n@, file_id.0),
                        ));
                        assert(prev.push((n@, file_id.0)) + file_symbols_from(
                            file_id.0,
                            tv,
                            i + 1,
                        ) =~= prev + file_symbols_from(file_id.0, tv, i as int));
                    }
                },
                Item::ModDecl(_) => {},
            }
            i = i + 1;
        }
        proof {
            assert(symbols@.map_values(|s: Symbol| s@) =~= file_symbols_from(file_id.0, tv, 0));
        }
        SymbolIndex { symbols }
    }

    /// One index holding the symbols of all parts, in part order.
    pub fn merge(parts: &Vec<SymbolIndex>) -> (r: SymbolIndex)
        ensures
            r@ == merged_from(parts@.map_values(|p: SymbolIndex| p@), 0),
    {
        let ghost pv = parts@.map_values(|p: SymbolIndex| p@);
        let mut symbols: Vec<Symbol> = Vec::new();
        let mut i: usize = 0;
        while i < parts.len()
            invariant
                pv == parts@.map_values(|p: SymbolIndex| p@),
                i <= parts.len(),
                symbols@.map_values(|s: Symbol| s@) + merged_from(pv, i as int)
                    == merged_from(pv, 0),
            decreases parts.len() - i,
        {
            let part = &parts[i].symbols;
            let ghost done = symbols@.map_values(|s: Symbol| s@);
            let mut j: usize = 0;
            while j < part.len()
                invariant
                    pv == parts@.map_values(|p: SymbolIndex| p@),
                    i < parts.len(),
                    part == &parts@[i as int].symbols,
                    j <= part.len(),
                    symbols@.map_values(|s: Symbol| s@) =~= done + pv[i as int].take(j as int),
                decreases part.len() - j,
            {
                let ghost before = symbols@.map_values(|s: Symbol| s@);
                symbols.push(part[j].clone());
                j = j + 1;
                proof {
                    assert(parts@[i as int]@ == pv[i as int]);
                    assert(part@[j - 1]@ == pv[i as int][j - 1]);
                    assert(symbols@.map_values(|s: Symbol| s@) =~= before.push(
                        pv[i as int][j - 1],
                    ));
                    assert(pv[i as int].take(j as int) =~= pv[i as int].take(j - 1).push(
                        pv[i as int][j - 1],
                    ));
                    assert(done + pv[i as int].take(j as int) =~= (done + pv[i as int].take(
                        j - 1,
                    )).push(pv[i as int][j - 1]));
                }
            }
            proof {
                assert(pv[i as int].take(pv[i as int].len() as int) =~= pv[i as int]);
                assert(done + pv[i as int] + merged_from(pv, i + 1) =~= done + merged_from(
                    pv,
                    i as int,
                ));
            }
            i = i + 1;
        }
        proof {
            assert(symbols@.map_values(|s: Symbol| s@) =~= merged_from(pv, 0));
        }
        SymbolIndex { symbols }
    }

    /// How many symbols the index holds.
    pub fn len(&self) -> (r: usize)
        ensures
            r == self@.len(),
    {
        self.symbols.len()
    }

    /// The symbols, in file order.
    pub fn symbols(&self) -> (r: &Vec<Symbol>)
        ensures
            r@.map_values(|s: Symbol| s@) == self@,
    {
        &self.symbols
    }

    /// Whether some file declares a symbol called `name`.
    pub fn contains_name(&self, name: &String) -> (r: bool)
        ensures
            r == exists|i: int| 0 <= i < self@.len() && self@[i].0 == name@,
    {
        let mut i: usize = 0;
        while i < self.symbols.len()
            invariant
                i <= self.symbols.len(),
                forall|k: int| 0 <= k < i ==> (#[trigger] self@[k]).0 != name@,
            decreases self.symbols.len() - i,
        {
            if self.symbols[i].name == *name {
                proof {
                    assert(self@[i as int].0 == name@);
                }
                return true;
            }
            i = i + 1;
        }
        false
    }
}

} // verus!
