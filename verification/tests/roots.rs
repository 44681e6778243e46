use std::sync::Arc;

use source_roots::FileId;
use source_roots::readonly::ReadonlySourceRoot;
use source_roots::resolver::FileResolver;
use source_roots::root::SourceRoot;
use source_roots::symbol_index::SymbolIndex;
use source_roots::writable::WritableSourceRoot;

fn resolver(entries: &[(&str, u32)]) -> FileResolver {
    let mut table: Vec<(String, FileId)> = Vec::new();
    for (name, id) in entries {
        table.push((name.to_string(), FileId(*id)));
    }
    FileResolver::new(table)
}

fn readonly_abc() -> ReadonlySourceRoot {
    let files = vec![
        (FileId(1), "mod a; mod b;".to_string()),
        (FileId(2), "fn foo(){}".to_string()),
        (FileId(3), "fn bar(){}".to_string()),
    ];
    ReadonlySourceRoot::new(files, resolver(&[("a", 2), ("b", 3)]))
}

#[test]
fn readonly_module_tree_links_parent_to_children() {
    let root = readonly_abc();
    let tree = root.module_tree().unwrap();
    let children = tree.children_of(FileId(1));
    assert_eq!(children, vec![FileId(2), FileId(3)]);
    assert_eq!(tree.children_of(FileId(2)), vec![]);
    assert_eq!(tree.links().len(), 2);
    assert_eq!(tree.links()[0].name, "a");
    assert_eq!(tree.links()[1].name, "b");
}

#[test]
fn readonly_symbols_yields_one_shared_handle_with_all_symbols() {
    let root = readonly_abc();
    let mut acc: Vec<Arc<SymbolIndex>> = Vec::new();
    root.symbols(&mut acc).unwrap();
    assert_eq!(acc.len(), 1);
    assert!(acc[0].contains_name(&"foo".to_string()));
    assert!(acc[0].contains_name(&"bar".to_string()));
    assert!(!acc[0].contains_name(&"baz".to_string()));
    let foo = acc[0]
        .symbols()
        .iter()
        .find(|s| s.name == "foo")
        .expect("foo is indexed");
    assert_eq!(foo.file, FileId(2));
    let bar = acc[0]
        .symbols()
        .iter()
        .find(|s| s.name == "bar")
        .expect("bar is indexed");
    assert_eq!(bar.file, FileId(3));
}

#[test]
fn readonly_contains_and_membership() {
    let root = readonly_abc();
    assert!(root.contains(FileId(1)));
    assert!(root.contains(FileId(2)));
    assert!(root.contains(FileId(3)));
    assert!(!root.contains(FileId(4)));
}

#[test]
fn readonly_lines_and_syntax_are_identity_stable() {
    let root = readonly_abc();
    let l1 = root.lines(FileId(1));
    let l2 = root.lines(FileId(1));
    assert!(Arc::ptr_eq(&l1, &l2));
    let s1 = root.syntax(FileId(1));
    let s2 = root.syntax(FileId(1));
    assert!(Arc::ptr_eq(&s1, &s2));
}

#[test]
fn readonly_construction_is_deterministic() {
    let a = readonly_abc();
    let b = readonly_abc();
    let ta = a.module_tree().unwrap();
    let tb = b.module_tree().unwrap();
    assert_eq!(ta.links().len(), tb.links().len());
    for (la, lb) in ta.links().iter().zip(tb.links().iter()) {
        assert_eq!(la.parent, lb.parent);
        assert_eq!(la.name, lb.name);
        assert_eq!(la.child, lb.child);
    }
    let mut sa: Vec<Arc<SymbolIndex>> = Vec::new();
    let mut sb: Vec<Arc<SymbolIndex>> = Vec::new();
    a.symbols(&mut sa).unwrap();
    b.symbols(&mut sb).unwrap();
    assert_eq!(sa[0].len(), sb[0].len());
    for (x, y) in sa[0].symbols().iter().zip(sb[0].symbols().iter()) {
        assert_eq!(x.name, y.name);
        assert_eq!(x.file, y.file);
    }
}

#[test]
fn writable_set_then_delete_removes_membership() {
    let mut root = WritableSourceRoot::new();
    root.apply_changes(&vec![(FileId(10), Some("x".to_string()))], None);
    assert!(root.contains(FileId(10)));
    root.apply_changes(&vec![(FileId(10), None)], None);
    assert!(!root.contains(FileId(10)));
}

#[test]
fn writable_set_wins_over_delete_in_one_batch_either_order() {
    let mut first = WritableSourceRoot::new();
    first.apply_changes(
        &vec![(FileId(7), Some("a".to_string())), (FileId(7), None)],
        None,
    );
    assert!(first.contains(FileId(7)));
    assert_eq!(first.file_text(FileId(7)), "a");

    let mut second = WritableSourceRoot::new();
    second.apply_changes(
        &vec![(FileId(7), None), (FileId(7), Some("a".to_string()))],
        None,
    );
    assert!(second.contains(FileId(7)));
    assert_eq!(second.file_text(FileId(7)), "a");
}

#[test]
fn writable_last_set_text_wins() {
    let mut root = WritableSourceRoot::new();
    root.apply_changes(
        &vec![
            (FileId(1), Some("first".to_string())),
            (FileId(1), Some("second".to_string())),
        ],
        None,
    );
    assert_eq!(root.file_text(FileId(1)), "second");
}

#[test]
fn writable_membership_formula_over_a_mixed_batch() {
    let mut root = WritableSourceRoot::new();
    root.apply_changes(
        &vec![
            (FileId(1), Some("one".to_string())),
            (FileId(2), Some("two".to_string())),
            (FileId(3), Some("three".to_string())),
        ],
        None,
    );
    root.apply_changes(
        &vec![
            (FileId(2), None),
            (FileId(3), None),
            (FileId(3), Some("three again".to_string())),
            (FileId(4), Some("four".to_string())),
        ],
        None,
    );
    assert!(root.contains(FileId(1)));
    assert!(!root.contains(FileId(2)));
    assert!(root.contains(FileId(3)));
    assert!(root.contains(FileId(4)));
    assert_eq!(root.file_text(FileId(1)), "one");
    assert_eq!(root.file_text(FileId(3)), "three again");
    assert_eq!(root.file_text(FileId(4)), "four");
}

#[test]
fn writable_delete_of_unknown_file_is_a_no_op() {
    let mut root = WritableSourceRoot::new();
    root.apply_changes(&vec![(FileId(1), Some("keep".to_string()))], None);
    root.apply_changes(&vec![(FileId(9), None)], None);
    assert!(root.contains(FileId(1)));
    assert!(!root.contains(FileId(9)));
}

#[test]
fn writable_module_tree_and_symbols_follow_edits() {
    let mut root = WritableSourceRoot::new();
    root.apply_changes(
        &vec![
            (FileId(1), Some("mod a;".to_string())),
            (FileId(2), Some("fn foo(){}".to_string())),
        ],
        Some(resolver(&[("a", 2)])),
    );
    let tree = root.module_tree().unwrap();
    assert_eq!(tree.children_of(FileId(1)), vec![FileId(2)]);

    let mut acc: Vec<Arc<SymbolIndex>> = Vec::new();
    root.symbols(&mut acc).unwrap();
    assert_eq!(acc.len(), 2);
    assert!(acc[0].contains_name(&"foo".to_string()) || acc[1].contains_name(&"foo".to_string()));
}

#[test]
fn writable_resolver_override_replaces_resolution() {
    let mut root = WritableSourceRoot::new();
    root.apply_changes(
        &vec![
            (FileId(1), Some("mod a;".to_string())),
            (FileId(2), Some("".to_string())),
            (FileId(3), Some("".to_string())),
        ],
        Some(resolver(&[("a", 2)])),
    );
    assert_eq!(
        root.module_tree().unwrap().children_of(FileId(1)),
        vec![FileId(2)]
    );
    root.apply_changes(&vec![], Some(resolver(&[("a", 3)])));
    assert_eq!(
        root.module_tree().unwrap().children_of(FileId(1)),
        vec![FileId(3)]
    );
}

#[test]
fn stale_read_is_canceled_when_a_batch_commits() {
    let mut root = WritableSourceRoot::new();
    root.apply_changes(&vec![(FileId(1), Some("mod a;".to_string()))], None);
    let token = root.begin_read();
    root.apply_changes(&vec![(FileId(2), Some("fn f(){}".to_string()))], None);
    assert!(root.module_tree_checked(&token).is_err());
    assert!(root.check_canceled(&token).is_err());
    let fresh = root.begin_read();
    assert!(root.module_tree_checked(&fresh).is_ok());
}

#[test]
fn stale_symbol_read_is_canceled_and_appends_nothing() {
    let mut root = WritableSourceRoot::new();
    root.apply_changes(&vec![(FileId(1), Some("fn f(){}".to_string()))], None);
    let token = root.begin_read();
    root.apply_changes(&vec![(FileId(1), None)], None);
    let mut acc: Vec<Arc<SymbolIndex>> = Vec::new();
    assert!(root.symbols_checked(&token, &mut acc).is_err());
    assert!(acc.is_empty());
    let fresh = root.begin_read();
    assert!(root.symbols_checked(&fresh, &mut acc).is_ok());
    assert!(acc.is_empty());
}

#[test]
fn revision_advances_once_per_batch() {
    let mut root = WritableSourceRoot::new();
    assert_eq!(root.revision(), 0);
    root.apply_changes(&vec![], None);
    assert_eq!(root.revision(), 1);
    root.apply_changes(&vec![(FileId(1), Some("x".to_string()))], None);
    assert_eq!(root.revision(), 2);
}

fn root_summary<R: SourceRoot>(root: &R, probe: FileId) -> (bool, usize) {
    let mut acc: Vec<Arc<SymbolIndex>> = Vec::new();
    root.symbols(&mut acc).unwrap();
    let total: usize = acc.iter().map(|i| i.len()).sum();
    (root.contains(probe), total)
}

#[test]
fn both_variants_serve_the_same_capability() {
    let ro = readonly_abc();
    let mut rw = WritableSourceRoot::new();
    rw.apply_changes(
        &vec![
            (FileId(1), Some("mod a; mod b;".to_string())),
            (FileId(2), Some("fn foo(){}".to_string())),
            (FileId(3), Some("fn bar(){}".to_string())),
        ],
        Some(resolver(&[("a", 2), ("b", 3)])),
    );
    let (ro_has, ro_count) = root_summary(&ro, FileId(2));
    let (rw_has, rw_count) = root_summary(&rw, FileId(2));
    assert!(ro_has && rw_has);
    assert_eq!(ro_count, 2);
    assert_eq!(rw_count, 2);
    let ro_tree = SourceRoot::module_tree(&ro).unwrap();
    let rw_tree = SourceRoot::module_tree(&rw).unwrap();
    assert_eq!(
        ro_tree.children_of(FileId(1)),
        rw_tree.children_of(FileId(1))
    );
}
