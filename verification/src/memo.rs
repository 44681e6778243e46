//! Per-file memo cell: one file's text plus its two lazily computed,
//! cached derivations.

use vstd::prelude::*;
use std::sync::Arc;
use once_cell::sync::OnceCell;
use crate::line_index::{LineIndex, line_starts};
use crate::text::{SyntaxTree, parse, parse_spec};

verus! {

#[verifier::external_type_specification]
#[verifier::external_body]
#[verifier::reject_recursive_types(T)]
pub struct ExOnceCell<T>(OnceCell<T>);

/// Relies on `once_cell::sync::OnceCell::new`: creates an empty cell.
pub assume_specification<T>[ OnceCell::<T>::new ]() -> OnceCell<T>;

/// Relies on std's `Arc::clone`: returns a new handle to the same value.
#[verifier::external_body]
pub(crate) fn arc_clone<T: View>(a: &Arc<T>) -> (r: Arc<T>)
    ensures
        r@ == a@,
{
    Arc::clone(a)
}

/// Holds immutable text plus two independently memoized pure derivations.
/// Each derivation is computed at most once; under concurrent first access
/// exactly one computed value is committed and shared by all readers.
#[derive(Debug)]
pub struct FileData {
    text: String,
    lines: OnceCell<Arc<LineIndex>>,
    syntax: OnceCell<Arc<SyntaxTree>>,
}

/// Relies on `once_cell::sync::OnceCell::get_or_init`: the first call
/// publishes the closure's result and every later call returns that same
/// published value, with at most one publication under concurrency. The
/// `lines` cell is initialized only here, from the cell's own immutable
/// text, so the published value is the closure's: the text's line index.
#[verifier::external_body]
fn memo_lines(data: &FileData) -> (r: Arc<LineIndex>)
    ensures
        r@ == line_starts(data.text_view()),
{
    Arc::clone(data.lines.get_or_init(|| Arc::new(LineIndex::new(data.text.as_str()))))
}

/// Relies on `once_cell::sync::OnceCell::get_or_init` as above: the
/// `syntax` cell is initialized only here, from the cell's own immutable
/// text, so the published value is the closure's: the text's parse tree.
#[verifier::external_body]
fn memo_syntax(data: &FileData) -> (r: Arc<SyntaxTree>)
    ensures
        r@ == parse_spec(data.text_view()),
{
    Arc::clone(data.syntax.get_or_init(|| Arc::new(parse(data.text.as_str()))))
}

impl FileData {
    /// The text the cell owns.
    pub closed spec fn text_view(&self) -> Seq<char> {
        self.text@
    }

    /// A fresh cell owning `text`, with nothing derived yet.
    pub fn new(text: String) -> (r: FileData)
        ensures
            r.text_view() == text@,
    {
        FileData { text, lines: OnceCell::new(), syntax: OnceCell::new() }
    }

    /// The text the cell owns.
    pub fn text(&self) -> (r: &String)
        ensures
            r@ == self.text_view(),
    {
        &self.text
    }

    /// The line index of the text, derived on first use and shared after.
    pub fn lines(&self) -> (r: Arc<LineIndex>)
        ensures
            r@ == line_starts(self.text_view()),
    {
        memo_lines(self)
    }

    /// The syntax tree of the text, derived on first use and shared after.
    pub fn syntax(&self) -> (r: Arc<SyntaxTree>)
        ensures
            r@ == parse_spec(self.text_view()),
    {
        memo_syntax(self)
    }
}

} // verus!
