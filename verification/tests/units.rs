use std::sync::Arc;

use source_roots::FileId;
use source_roots::descriptors::{ModuleDescriptor, ModuleTreeDescriptor};
use source_roots::line_index::LineIndex;
use source_roots::memo::FileData;
use source_roots::resolver::FileResolver;
use source_roots::symbol_index::SymbolIndex;
use source_roots::text::{Item, parse};

#[test]
fn line_index_records_line_starts() {
    let idx = LineIndex::new("ab\nc\n");
    assert_eq!(idx.line_count(), 3);
    assert_eq!(idx.line_start(0), 0);
    assert_eq!(idx.line_start(1), 3);
    assert_eq!(idx.line_start(2), 5);
}

#[test]
fn line_index_of_empty_text_has_one_line() {
    let idx = LineIndex::new("");
    assert_eq!(idx.line_count(), 1);
    assert_eq!(idx.line_start(0), 0);
}

#[test]
fn line_index_without_newlines() {
    let idx = LineIndex::new("no breaks here");
    assert_eq!(idx.line_count(), 1);
}

#[test]
fn parse_finds_module_and_function_declarations() {
    let tree = parse("mod a; fn foo(){} mod b;");
    let items = tree.items();
    assert_eq!(items.len(), 3);
    assert_eq!(items[0], Item::ModDecl("a".to_string()));
    assert_eq!(items[1], Item::FnDecl("foo".to_string()));
    assert_eq!(items[2], Item::ModDecl("b".to_string()));
}

#[test]
fn parse_needs_a_name_after_the_keyword() {
    assert_eq!(parse("fn").items().len(), 0);
    assert_eq!(parse("mod").items().len(), 0);
    assert_eq!(parse("").items().len(), 0);
}

#[test]
fn parse_does_not_split_words_on_letters() {
    // `modx` is one word, not the keyword `mod`.
    assert_eq!(parse("modx y").items().len(), 0);
    let tree = parse("fn _x");
    assert_eq!(tree.items()[0], Item::FnDecl("_x".to_string()));
}

#[test]
fn resolver_answers_first_match() {
    let r = FileResolver::new(vec![
        ("a".to_string(), FileId(2)),
        ("a".to_string(), FileId(3)),
        ("b".to_string(), FileId(4)),
    ]);
    assert_eq!(r.resolve(&"a".to_string()), Some(FileId(2)));
    assert_eq!(r.resolve(&"b".to_string()), Some(FileId(4)));
    assert_eq!(r.resolve(&"c".to_string()), None);
    assert_eq!(FileResolver::empty().resolve(&"a".to_string()), None);
}

#[test]
fn module_tree_skips_unresolved_references() {
    let files = vec![
        (FileId(1), ModuleDescriptor::new(&parse("mod a; mod missing;"))),
        (FileId(2), ModuleDescriptor::new(&parse("fn leaf(){}"))),
    ];
    let tree = ModuleTreeDescriptor::new(
        &files,
        &FileResolver::new(vec![("a".to_string(), FileId(2))]),
    );
    assert_eq!(tree.links().len(), 1);
    assert_eq!(tree.links()[0].parent, FileId(1));
    assert_eq!(tree.links()[0].child, FileId(2));
    assert_eq!(tree.children_of(FileId(3)), vec![]);
}

#[test]
fn symbol_index_collects_functions_of_one_file() {
    let idx = SymbolIndex::for_file(FileId(5), &parse("fn a(){} mod m; fn b(){}"));
    assert_eq!(idx.len(), 2);
    assert!(idx.contains_name(&"a".to_string()));
    assert!(idx.contains_name(&"b".to_string()));
    assert!(!idx.contains_name(&"m".to_string()));
    assert_eq!(idx.symbols()[0].file, FileId(5));
}

#[test]
fn symbol_index_merge_keeps_part_order() {
    let one = SymbolIndex::for_file(FileId(1), &parse("fn x(){}"));
    let two = SymbolIndex::for_file(FileId(2), &parse("fn y(){} fn z(){}"));
    let merged = SymbolIndex::merge(&vec![one, two]);
    assert_eq!(merged.len(), 3);
    assert_eq!(merged.symbols()[0].name, "x");
    assert_eq!(merged.symbols()[1].name, "y");
    assert_eq!(merged.symbols()[2].name, "z");
}

#[test]
fn memo_cell_derives_lazily_and_shares() {
    let data = FileData::new("mod a;\nfn f(){}".to_string());
    assert_eq!(data.text(), "mod a;\nfn f(){}");
    let lines = data.lines();
    assert_eq!(lines.line_count(), 2);
    assert!(Arc::ptr_eq(&lines, &data.lines()));
    let syntax = data.syntax();
    assert_eq!(syntax.items().len(), 2);
    assert!(Arc::ptr_eq(&syntax, &data.syntax()));
}
