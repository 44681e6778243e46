//! Tokenizing and parsing of source text.
//!
//! A file's tree of declarations is a pure function of its text: the text is
//! split into words (maximal runs of identifier characters), and a `mod` or
//! `fn` word followed by another word declares a sub-module or a function
//! named by that following word.

use vstd::prelude::*;
use vstd::string::StrSliceExecFns;

verus! {

/// Characters that may form a word: ASCII letters, digits and underscore.
pub open spec fn is_word_char(c: char) -> bool {
    (97 <= c as u32 && c as u32 <= 122)  // a-z
    || (65 <= c as u32 && c as u32 <= 90)  // A-Z
    || (48 <= c as u32 && c as u32 <= 57)  // 0-9
    || c as u32 == 95  // _
}

pub fn word_char(c: char) -> (r: bool)
    ensures
        r == is_word_char(c),
{
    let u = c as u32;
    (97 <= u && u <= 122) || (65 <= u && u <= 90) || (48 <= u && u <= 57) || u == 95
}

/// End of the word starting at `i`: the first position at or after `i` that
/// is past the end of the text or holds a non-word character.
pub open spec fn word_end(s: Seq<char>, i: int) -> int
    decreases s.len() - i,
{
    if i < 0 || i >= s.len() {
        i
    } else if is_word_char(s[i]) {
        word_end(s, i + 1)
    } else {
        i
    }
}

pub proof fn lemma_word_end_bounds(s: Seq<char>, i: int)
    requires
        0 <= i <= s.len(),
    ensures
        i <= word_end(s, i) <= s.len(),
    decreases s.len() - i,
{
    if i < s.len() && is_word_char(s[i]) {
        lemma_word_end_bounds(s, i + 1);
    }
}

/// The end of a word is pinned by its characters: if everything in `[i, j)`
/// is a word character and `j` sits at the end of the text or at a non-word
/// character, then `j` is the word end.
pub proof fn lemma_word_end_char(s: Seq<char>, i: int, j: int)
    requires
        0 <= i <= j <= s.len(),
        forall|k: int| i <= k < j ==> is_word_char(#[trigger] s[k]),
        j == s.len() || !is_word_char(s[j]),
    ensures
        word_end(s, i) == j,
    decreases j - i,
{
    if i < j {
        lemma_word_end_char(s, i + 1, j);
    }
}

/// The words of `s` from position `i` on, in order of appearance.
pub open spec fn words_from(s: Seq<char>, i: int) -> Seq<Seq<char>>
    decreases s.len() - i,
    via words_from_dec
{
    if i < 0 || i >= s.len() {
        Seq::empty()
    } else if !is_word_char(s[i]) {
        words_from(s, i + 1)
    } else {
        seq![s.subrange(i, word_end(s, i))] + words_from(s, word_end(s, i))
    }
}

#[via_fn]
proof fn words_from_dec(s: Seq<char>, i: int) {
    if 0 <= i && i < s.len() && is_word_char(s[i]) {
        lemma_word_end_bounds(s, i + 1);
    }
}

/// All the words of `s`, in order.
pub open spec fn words_of(s: Seq<char>) -> Seq<Seq<char>> {
    words_from(s, 0)
}

/// Relies on std's `String::push`: appends exactly the given character at
/// the end of the string.
#[verifier::external_body]
fn push_char(s: &mut String, c: char)
    ensures
        final(s)@ == old(s)@.push(c),
{
    s.push(c);
}

/// Whether position `j` of `text` holds a word character (false past the end).
fn word_char_at(text: &str, j: usize) -> (r: bool)
    ensures
        r == (j < text@.len() && is_word_char(text@[j as int])),
{
    if j < text.unicode_len() {
        word_char(text.get_char(j))
    } else {
        false
    }
}

/// Splits `text` into its words.
pub fn words(text: &str) -> (r: Vec<String>)
    ensures
        r@.map_values(|w: String| w@) == words_of(text@),
{
    let n = text.unicode_len();
    let mut out: Vec<String> = Vec::new();
    let mut i: usize = 0;
    while i < n
        invariant
            n == text@.len(),
            i <= n,
            out@.map_values(|w: String| w@) + words_from(text@, i as int) == words_of(text@),
        decreases n - i,
    {
        if word_char_at(text, i) {
            let ghost prev = out@.map_values(|w: String| w@);
            let mut w = String::new();
            let mut j: usize = i;
            proof {
                assert(w@ =~= text@.subrange(i as int, i as int));
            }
            while word_char_at(text, j)
                invariant
                    n == text@.len(),
                    i <= j <= n,
                    forall|k: int| i <= k < j ==> is_word_char(#[trigger] text@[k]),
                    w@ == text@.subrange(i as int, j as int),
                decreases n - j,
            {
                let c = text.get_char(j);
                push_char(&mut w, c);
                j = j + 1;
                proof {
                    assert(w@ =~= text@.subrange(i as int, j as int));
                }
            }
            proof {
                lemma_word_end_char(text@, i as int, j as int);
                assert(words_from(text@, i as int) =~= seq![w@] + words_from(
                    text@,
                    j as int,
                ));
            }
            out.push(w);
            proof {
                assert(out@.map_values(|w: String| w@) =~= prev.push(text@.subrange(
                    i as int,
                    j as int,
                )));
                assert(prev.push(text@.subrange(i as int, j as int)) + words_from(
                    text@,
                    j as int,
                ) =~= prev + (seq![text@.subrange(i as int, j as int)] + words_from(
                    text@,
                    j as int,
                )));
            }
            i = j;
        } else {
            i = i + 1;
        }
    }
    proof {
        assert(out@.map_values(|w: String| w@) =~= words_of(text@));
    }
    out
}

/// One declaration found in a file's text.
#[derive(Clone, PartialEq, Eq, Debug)]
pub enum Item {
    /// `mod name`: declares a sub-module.
    ModDecl(String),
    /// `fn name`: declares a function.
    FnDecl(String),
}

/// Mathematical counterpart of [`Item`].
pub enum ItemView {
    ModDecl(Seq<char>),
    FnDecl(Seq<char>),
}

impl View for Item {
    type V = ItemView;

    open spec fn view(&self) -> ItemView {
        match self {
            Item::ModDecl(n) => ItemView::ModDecl(n@),
            Item::FnDecl(n) => ItemView::FnDecl(n@),
        }
    }
}

/// The declarations named by the word list `ws` from position `i` on: a
/// `mod` or `fn` word declares an item named by the word that follows it.
pub open spec fn items_from(ws: Seq<Seq<char>>, i: int) -> Seq<ItemView>
    decreases ws.len() - i,
{
    if i < 0 || i + 1 >= ws.len() {
        Seq::empty()
    } else {
        let rest = items_from(ws, i + 1);
        if ws[i] == "mod"@ {
            seq![ItemView::ModDecl(ws[i + 1])] + rest
        } else if ws[i] == "fn"@ {
            seq![ItemView::FnDecl(ws[i + 1])] + rest
        } else {
            rest
        }
    }
}

/// The declarations of a text: a pure function of the text alone.
pub open spec fn parse_spec(s: Seq<char>) -> Seq<ItemView> {
    items_from(words_of(s), 0)
}

/// An immutable parse result, derived from one file's text.
#[derive(Debug)]
pub struct SyntaxTree {
    items: Vec<Item>,
}

impl View for SyntaxTree {
    type V = Seq<ItemView>;

    closed spec fn view(&self) -> Seq<ItemView> {
        self.items@.map_values(|it: Item| it@)
    }
}

impl SyntaxTree {
    /// The declarations of the tree, in order of appearance.
    pub fn items(&self) -> (r: &Vec<Item>)
        ensures
            r@.map_values(|it: Item| it@) == self@,
    {
        &self.items
    }
}

/// Parses a text into its syntax tree.
pub fn parse(text: &str) -> (t: SyntaxTree)
    ensures
        t@ == parse_spec(text@),
{
    let ws = words(text);
    let ghost wsv = ws@.map_values(|w: String| w@);
    let kw_mod: String = "mod".to_owned();
    let kw_fn: String = "fn".to_owned();
    let mut items: Vec<Item> = Vec::new();
    let mut i: usize = 0;
    let n = ws.len();
    while n >= 1 && i < n - 1
        invariant
            n == ws.len(),
            wsv == ws@.map_values(|w: String| w@),
            wsv == words_of(text@),
            i <= ws.len(),
            kw_mod@ == "mod"@,
            kw_fn@ == "fn"@,
            items@.map_values(|it: Item| it@) + items_from(wsv, i as int) == items_from(wsv, 0),
        decreases ws.len() - i,
    {
        let ghost prev = items@.map_values(|it: Item| it@);
        if ws[i] == kw_mod {
            items.push(Item::ModDecl(ws[i + 1].clone()));
            proof {
                assert(items@.map_values(|it: Item| it@) =~= prev.push(
                    ItemView::ModDecl(wsv[i + 1]),
                ));
                assert(prev.push(ItemView::ModDecl(wsv[i + 1])) + items_from(wsv, i + 1)
                    =~= prev + items_from(wsv, i as int));
            }
        } else if ws[i] == kw_fn {
            items.push(Item::FnDecl(ws[i + 1].clone()));
            proof {
                assert(items@.map_values(|it: Item| it@) =~= prev.push(
                    ItemView::FnDecl(wsv[i + 1]),
                ));
                assert(prev.push(ItemView::FnDecl(wsv[i + 1])) + items_from(wsv, i + 1)
                    =~= prev + items_from(wsv, i as int));
            }
        }
        i = i + 1;
    }
    proof {
        assert(items@.map_values(|it: Item| it@) =~= items_from(wsv, 0));
    }
    SyntaxTree { items }
}

/// The names of the sub-modules declared among `items`, from position `i` on.
pub open spec fn module_names_from(items: Seq<ItemView>, i: int) -> Seq<Seq<char>>
    decreases items.len() - i,
{
    if i < 0 || i >= items.len() {
        Seq::empty()
    } else {
        (match items[i] {
            ItemView::ModDecl(n) => seq![n],
            ItemView::FnDecl(_) => Seq::empty(),
        }) + module_names_from(items, i + 1)
    }
}

/// The names of the functions declared among `items`, from position `i` on.
pub open spec fn fn_names_from(items: Seq<ItemView>, i: int) -> Seq<Seq<char>>
    decreases items.len() - i,
{
    if i < 0 || i >= items.len() {
        Seq::empty()
    } else {
        (match items[i] {
            ItemView::ModDecl(_) => Seq::empty(),
            ItemView::FnDecl(n) => seq![n],
        }) + fn_names_from(items, i + 1)
    }
}

/// The sub-modules a text declares: a pure function of the text alone.
pub open spec fn modules_of_text(s: Seq<char>) -> Seq<Seq<char>> {
    module_names_from(parse_spec(s), 0)
}

/// The function symbols a text declares: a pure function of the text alone.
pub open spec fn symbols_of_text(s: Seq<char>) -> Seq<Seq<char>> {
    fn_names_from(parse_spec(s), 0)
}

} // verus!
