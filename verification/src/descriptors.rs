//! Per-file and whole-root summaries of module declaration structure.

use vstd::prelude::*;
use crate::FileId;
use crate::resolver::{FileResolver, resolve_spec};
use crate::text::{Item, SyntaxTree, module_names_from, modules_of_text};

verus! {

/// Per-file summary of declared sub-modules, derived from a syntax tree.
#[derive(Debug)]
pub struct ModuleDescriptor {
    submodules: Vec<String>,
}

impl View for ModuleDescriptor {
    type V = Seq<Seq<char>>;

    closed spec fn view(&self) -> Seq<Seq<char>> {
        self.submodules@.map_values(|s: String| s@)
    }
}

impl Clone for ModuleDescriptor {
    fn clone(&self) -> (r: Self)
        ensures
            r@ == self@,
    {
        let mut subs: Vec<String> = Vec::new();
        let mut i: usize = 0;
        while i < self.submodules.len()
            invariant
                i <= self.submodules.len(),
                subs@ =~= self.submodules@.take(i as int),
            decreases self.submodules.len() - i,
        {
            subs.push(self.submodules[i].clone());
            i = i + 1;
        }
        proof {
            assert(subs@ =~= self.submodules@);
        }
        ModuleDescriptor { submodules: subs }
    }
}

impl ModuleDescriptor {
    /// Extracts the sub-modules a syntax tree declares.
    pub fn new(tree: &SyntaxTree) -> (r: ModuleDescriptor)
        ensures
            r@ == module_names_from(tree@, 0),
    {
        let items = tree.items();
        let ghost tv = tree@;
        let mut subs: Vec<String> = Vec::new();
        let mut i: usize = 0;
        while i < items.len()
            invariant
                tv == items@.map_values(|it: Item| it@),
                i <= items.len(),
                subs@.map_values(|s: String| s@) + module_names_from(tv, i as int)
                    == module_names_from(tv, 0),
            decreases items.len() - i,
        {
            let ghost prev = subs@.map_values(|s: String| s@);
            match &items[i] {
                Item::ModDecl(n) => {
                    subs.push(n.clone());
                    proof {
                        assert(subs@.map_values(|s: String| s@) =~= prev.push(n@));
                        assert(prev.push(n@) + module_names_from(tv, i + 1) =~= prev
                            + module_names_from(tv, i as int));
                    }
                },
                Item::FnDecl(_) => {},
            }
            i = i + 1;
        }
        proof {
            assert(subs@.map_values(|s: String| s@) =~= module_names_from(tv, 0));
        }
        ModuleDescriptor { submodules: subs }
    }
}

/// One link of the module graph: `parent` declares a sub-module called
/// `name` that resolves to `child`.
#[derive(Debug)]
pub struct ModuleLink {
    pub parent: FileId,
    pub name: String,
    pub child: FileId,
}

impl View for ModuleLink {
    type V = (u32, Seq<char>, u32);

    open spec fn view(&self) -> (u32, Seq<char>, u32) {
        (self.parent.0, self.name@, self.child.0)
    }
}

/// The links contributed by one file `id` with sub-module names `names`,
/// from position `j` on: each name the resolver knows yields one link.
pub open spec fn file_links_from(
    id: u32,
    names: Seq<Seq<char>>,
    res: Seq<(Seq<char>, u32)>,
    j: int,
) -> Seq<(u32, Seq<char>, u32)>
    decreases names.len() - j,
{
    if j < 0 || j >= names.len() {
        Seq::empty()
    } else {
        (match resolve_spec(res, names[j]) {
            Some(c) => seq![(id, names[j], c)],
            None => Seq::empty(),
        }) + file_links_from(id, names, res, j + 1)
    }
}

/// The links of the whole graph over `files` (id and sub-module names),
/// from file `i` on, in file order.
pub open spec fn links_from(
    files: Seq<(u32, Seq<Seq<char>>)>,
    res: Seq<(Seq<char>, u32)>,
    i: int,
) -> Seq<(u32, Seq<char>, u32)>
    decreases files.len() - i,
{
    if i < 0 || i >= files.len() {
        Seq::empty()
    } else {
        file_links_from(files[i].0, files[i].1, res, 0) + links_from(files, res, i + 1)
    }
}

/// The module graph of a root, as a pure function of its file list (id and
/// text, in order) and its resolver.
pub open spec fn tree_of_files(
    files: Seq<(u32, Seq<char>)>,
    res: Seq<(Seq<char>, u32)>,
) -> Seq<(u32, Seq<char>, u32)> {
    links_from(files.map_values(|f: (u32, Seq<char>)| (f.0, modules_of_text(f.1))), res, 0)
}

/// The children a graph gives one parent, from link `i` on, in link order.
pub open spec fn children_from(
    links: Seq<(u32, Seq<char>, u32)>,
    p: u32,
    i: int,
) -> Seq<u32>
    decreases links.len() - i,
{
    if i < 0 || i >= links.len() {
        Seq::empty()
    } else {
        (if links[i].0 == p {
            seq![links[i].2]
        } else {
            Seq::empty()
        }) + children_from(links, p, i + 1)
    }
}

/// Whole-root graph connecting files via module declarations; immutable
/// once built for a given root snapshot.
#[derive(Debug)]
pub struct ModuleTreeDescriptor {
    links: Vec<ModuleLink>,
}

impl View for ModuleTreeDescriptor {
    type V = Seq<(u32, Seq<char>, u32)>;

    closed spec fn view(&self) -> Seq<(u32, Seq<char>, u32)> {
        self.links@.map_values(|l: ModuleLink| l@)
    }
}

impl ModuleTreeDescriptor {
    /// Joins all per-file descriptors with the resolver into one graph.
    /// The result is a pure function of the descriptor list and the
    /// resolver, independent of how the descriptors were produced.
    pub fn new(files: &Vec<(FileId, ModuleDescriptor)>, resolver: &FileResolver) -> (r:
        ModuleTreeDescriptor)
        ensures
            r@ == links_from(
                files@.map_values(|f: (FileId, ModuleDescriptor)| (f.0.0, f.1@)),
                resolver@,
                0,
            ),
    {
        let ghost fv = files@.map_values(|f: (FileId, ModuleDescriptor)| (f.0.0, f.1@));
        let mut links: Vec<ModuleLink> = Vec::new();
        let mut i: usize = 0;
        while i < files.len()
            invariant
                fv == files@.map_values(|f: (FileId, ModuleDescriptor)| (f.0.0, f.1@)),
                i <= files.len(),
                links@.map_values(|l: ModuleLink| l@) + links_from(fv, resolver@, i as int)
                    == links_from(fv, resolver@, 0),
            decreases files.len() - i,
        {
            let parent = files[i].0;
            let names = &files[i].1.submodules;
            let ghost nv = files@[i as int].1@;
            proof {
                assert(fv[i as int] == (files@[i as int].0.0, files@[i as int].1@));
            }
            let mut j: usize = 0;
            while j < names.len()
                invariant
                    fv == files@.map_values(|f: (FileId, ModuleDescriptor)| (f.0.0, f.1@)),
                    i < files.len(),
                    parent == files@[i as int].0,
                    names == &files@[i as int].1.submodules,
                    nv == files@[i as int].1@,
                    j <= names.len(),
                    links@.map_values(|l: ModuleLink| l@) + file_links_from(
                        parent.0,
                        nv,
                        resolver@,
                        j as int,
                    ) + links_from(fv, resolver@, i + 1) == links_from(fv, resolver@, 0),
                decreases names.len() - j,
            {
                let ghost prev = links@.map_values(|l: ModuleLink| l@);
                let name = &names[j];
                match resolver.resolve(name) {
                    Some(child) => {
                        links.push(
                            ModuleLink { parent, name: name.clone(), child },
                        );
                        proof {
                            assert(links@.map_values(|l: ModuleLink| l@) =~= prev.push(
                                (parent.0, nv[j as int], child.0),
                            ));
                            assert(prev.push((parent.0, nv[j as int], child.0))
                                + file_links_from(parent.0, nv, resolver@, j + 1) =~= prev
                                + file_links_from(parent.0, nv, resolver@, j as int));
                        }
                    },
                    None => {
                        proof {
                            assert(file_links_from(parent.0, nv, resolver@, j as int)
                                =~= file_links_from(parent.0, nv, resolver@, j + 1));
                        }
                    },
                }
                j = j + 1;
            }
            i = i + 1;
        }
        proof {
            assert(links@.map_values(|l: ModuleLink| l@) =~= links_from(fv, resolver@, 0));
        }
        ModuleTreeDescriptor { links }
    }

    /// The links of the graph, in file order.
    pub fn links(&self) -> (r: &Vec<ModuleLink>)
        ensures
            r@.map_values(|l: ModuleLink| l@) == self@,
    {
        &self.links
    }

    /// The files that `parent` declares as sub-modules, in link order.
    pub fn children_of(&self, parent: FileId) -> (r: Vec<FileId>)
        ensures
            r@.map_values(|f: FileId| f.0) == children_from(self@, parent.0, 0),
    {
        let ghost lv = self@;
        let mut out: Vec<FileId> = Vec::new();
        let mut i: usize = 0;
        while i < self.links.len()
            invariant
                lv == self@,
                i <= self.links.len(),
                out@.map_values(|f: FileId| f.0) + children_from(lv, parent.0, i as int)
                    == children_from(lv, parent.0, 0),
            decreases self.links.len() - i,
        {
            let ghost prev = out@.map_values(|f: FileId| f.0);
            if self.links[i].parent.0 == parent.0 {
                out.push(self.links[i].child);
                proof {
                    assert(out@.map_values(|f: FileId| f.0) =~= prev.push(lv[i as int].2));
                    assert(prev.push(lv[i as int].2) + children_from(lv, parent.0, i + 1)
                        =~= prev + children_from(lv, parent.0, i as int));
                }
            }
            i = i + 1;
        }
        proof {
            assert(out@.map_values(|f: FileId| f.0) =~= children_from(lv, parent.0, 0));
        }
        out
    }
}

} // verus!
