//! Justfiles: their recipes, the hooks that recipes attach to others, and how
//! the text of a justfile is read.
//!
//! The text is read line by line:
//! - a blank line is skipped;
//! - an indented line is a command line of the recipe above it; a leading `@`
//!   makes the line quiet, so that it is not echoed before it runs; a command
//!   line that ends in a backslash goes on in the next indented line;
//! - a line that starts with `#` is a comment, and ends the recipe above it;
//! - a line that starts with `[` is an attribute of the recipe below it:
//!   `[before("target")]` and `[after("target")]` make that recipe a hook of
//!   `target`; other attributes, a name with or without a quoted argument, are
//!   accepted and have no effect here;
//! - any other line is a recipe header: the recipe's name, a colon, and the
//!   names of its dependencies, those after `&&` running after the recipe's
//!   own lines.
//!
//! A justfile is then checked: every name is defined once, every dependency
//! and every hook target is a recipe.

use vstd::prelude::*;
use vstd::string::StringExecFns;
use crate::live_event::strs_view;
use crate::text::chars_of;

verus! {

/// Whether a hook runs before its target or after it.
#[derive(Clone, Copy, Debug, PartialEq, Eq, Structural)]
pub enum HookKind {
    Before,
    After,
}

/// A hook attribute: the recipe it is written on runs before or after `target`.
#[derive(Debug)]
pub struct Hook {
    pub kind: HookKind,
    pub target: String,
}

pub struct HookView {
    pub kind: HookKind,
    pub target: Seq<char>,
}

impl View for Hook {
    type V = HookView;

    open spec fn view(&self) -> HookView {
        HookView { kind: self.kind, target: self.target@ }
    }
}

/// A command line of a recipe.
#[derive(Debug)]
pub struct Line {
    pub command: String,
    pub quiet: bool,
}

pub struct LineView {
    pub command: Seq<char>,
    pub quiet: bool,
}

impl View for Line {
    type V = LineView;

    open spec fn view(&self) -> LineView {
        LineView { command: self.command@, quiet: self.quiet }
    }
}

/// A recipe: its name, its hook attributes in order, its dependencies that run
/// before it and after it, and its command lines.
#[derive(Debug)]
pub struct Recipe {
    pub name: String,
    pub hooks: Vec<Hook>,
    pub prior: Vec<String>,
    pub subsequent: Vec<String>,
    pub lines: Vec<Line>,
}

pub struct RecipeView {
    pub name: Seq<char>,
    pub hooks: Seq<HookView>,
    pub prior: Seq<Seq<char>>,
    pub subsequent: Seq<Seq<char>>,
    pub lines: Seq<LineView>,
}

impl View for Recipe {
    type V = RecipeView;

    open spec fn view(&self) -> RecipeView {
        RecipeView {
            name: self.name@,
            hooks: self.hooks@.map_values(|h: Hook| h@),
            prior: strs_view(self.prior@),
            subsequent: strs_view(self.subsequent@),
            lines: self.lines@.map_values(|l: Line| l@),
        }
    }
}

/// The values of a list of recipes.
pub open spec fn recipes_view(v: Seq<Recipe>) -> Seq<RecipeView> {
    v.map_values(|r: Recipe| r@)
}

// ---------------------------------------------------------------------------
// Lines

/// The lines of a text: the pieces between line feeds.
pub open spec fn lines_of(s: Seq<char>) -> Seq<Seq<char>>
    decreases s.len(),
{
    if s.len() == 0 {
        seq![Seq::<char>::empty()]
    } else {
        let ls = lines_of(s.drop_last());
        if s.last() == '\n' {
            ls.push(Seq::empty())
        } else {
            ls.update(ls.len() - 1, ls.last().push(s.last()))
        }
    }
}

/// A line without the carriage return that ends it, if one does.
pub open spec fn strip_cr(l: Seq<char>) -> Seq<char> {
    if l.len() > 0 && l.last() == '\r' {
        l.drop_last()
    } else {
        l
    }
}

/// Space or tab.
pub open spec fn is_blank_char(c: char) -> bool {
    c == ' ' || c == '\t'
}

/// A line of spaces and tabs only.
pub open spec fn is_blank(l: Seq<char>) -> bool {
    forall|i: int| 0 <= i < l.len() ==> is_blank_char(#[trigger] l[i])
}

/// A line without its leading spaces and tabs.
pub open spec fn skip_blanks(l: Seq<char>) -> Seq<char>
    decreases l.len(),
{
    if l.len() > 0 && is_blank_char(l[0]) {
        skip_blanks(l.drop_first())
    } else {
        l
    }
}

/// The command line that an indented line holds.
pub open spec fn body_line(l: Seq<char>) -> LineView {
    let b = skip_blanks(l);
    if b.len() > 0 && b[0] == '@' {
        LineView { command: b.drop_first(), quiet: true }
    } else {
        LineView { command: b, quiet: false }
    }
}

/// Whether a command line goes on in the next line: it ends in a backslash.
pub open spec fn continues(command: Seq<char>) -> bool {
    command.len() > 0 && command.last() == '\\'
}

/// A recipe's command lines after the indented line `l`: where the last line ends
/// in a backslash, `l` goes on with it, the backslash dropped and `l`'s leading
/// blanks too; else `l` is a new command line.
pub open spec fn add_body_line(lines: Seq<LineView>, l: Seq<char>) -> Seq<LineView> {
    if lines.len() > 0 && continues(lines.last().command) {
        lines.update(
            lines.len() - 1,
            LineView { command: lines.last().command.drop_last() + skip_blanks(l), ..lines.last() },
        )
    } else {
        lines.push(body_line(l))
    }
}

// ---------------------------------------------------------------------------
// Names

/// A character that can begin a name.
pub open spec fn is_name_start(c: char) -> bool {
    ('a' <= c && c <= 'z') || ('A' <= c && c <= 'Z') || c == '_'
}

/// A character that can continue a name.
pub open spec fn is_name_char(c: char) -> bool {
    is_name_start(c) || ('0' <= c && c <= '9') || c == '-'
}

/// A name: a letter or `_`, then letters, digits, `_` and `-`.
pub open spec fn is_name(s: Seq<char>) -> bool {
    s.len() > 0 && is_name_start(s[0]) && forall|i: int| 1 <= i < s.len() ==> is_name_char(#[trigger] s[i])
}

/// Where `c` first occurs in `s`.
pub open spec fn index_of_char(s: Seq<char>, c: char) -> Option<int> {
    if exists|i: int| 0 <= i < s.len() && s[i] == c && forall|j: int| 0 <= j < i ==> s[j] != c {
        Some(choose|i: int| 0 <= i < s.len() && s[i] == c && forall|j: int| 0 <= j < i ==> s[j] != c)
    } else {
        None
    }
}

// ---------------------------------------------------------------------------
// Attributes

/// A line without its trailing spaces and tabs.
pub open spec fn trim_blanks_end(l: Seq<char>) -> Seq<char>
    decreases l.len(),
{
    if l.len() > 0 && is_blank_char(l.last()) {
        trim_blanks_end(l.drop_last())
    } else {
        l
    }
}

/// What an attribute line holds: the attribute's name and its quoted argument, if any.
pub open spec fn attribute_of(l: Seq<char>) -> Option<(Seq<char>, Option<Seq<char>>)> {
    let t = trim_blanks_end(l);
    if t.len() >= 2 && t[0] == '[' && t.last() == ']' {
        let inner = t.subrange(1, t.len() - 1);
        match index_of_char(inner, '(') {
            None => if is_name(inner) { Some((inner, None)) } else { None },
            Some(k) => {
                let name = inner.take(k);
                let rest = inner.skip(k);
                let arg = rest.subrange(2, rest.len() - 2);
                if is_name(name) && rest.len() >= 4 && rest[1] == '"' && rest[rest.len() - 2] == '"'
                    && rest[rest.len() - 1] == ')' && index_of_char(arg, '"') is None {
                    Some((name, Some(arg)))
                } else {
                    None
                }
            },
        }
    } else {
        None
    }
}

/// The hook that an attribute makes, if it is one; none for another attribute;
/// an error for `before` or `after` without a target.
pub open spec fn attribute_hook(name: Seq<char>, arg: Option<Seq<char>>) -> Result<Option<HookView>, ()> {
    if name == "before"@ {
        match arg {
            Some(t) => Ok(Some(HookView { kind: HookKind::Before, target: t })),
            None => Err(()),
        }
    } else if name == "after"@ {
        match arg {
            Some(t) => Ok(Some(HookView { kind: HookKind::After, target: t })),
            None => Err(()),
        }
    } else {
        Ok(None)
    }
}

// ---------------------------------------------------------------------------
// Recipe headers

/// The state of splitting a text into words: the words so far, and where the
/// word being read began.
pub open spec fn words_from(s: Seq<char>) -> (Seq<Seq<char>>, Option<int>)
    decreases s.len(),
{
    if s.len() == 0 {
        (Seq::empty(), None)
    } else {
        let (done, start) = words_from(s.drop_last());
        let i = s.len() - 1;
        if is_blank_char(s.last()) {
            match start {
                Some(st) => (done.push(s.subrange(st, i)), None),
                None => (done, None),
            }
        } else {
            match start {
                Some(st) => (done, Some(st)),
                None => (done, Some(i)),
            }
        }
    }
}

/// The words of a text, separated by spaces and tabs.
pub open spec fn words(s: Seq<char>) -> Seq<Seq<char>> {
    let (done, start) = words_from(s);
    match start {
        Some(st) => done.push(s.subrange(st, s.len() as int)),
        None => done,
    }
}

/// Where `&&` first occurs among the words.
pub open spec fn and_and_index(ws: Seq<Seq<char>>) -> Option<int> {
    if exists|i: int| 0 <= i < ws.len() && ws[i] == "&&"@ {
        Some(choose|i: int| 0 <= i < ws.len() && ws[i] == "&&"@ && forall|j: int| 0 <= j < i ==> ws[j] != "&&"@)
    } else {
        None
    }
}

/// Whether all the words are names.
pub open spec fn all_names(ws: Seq<Seq<char>>) -> bool {
    forall|i: int| 0 <= i < ws.len() ==> is_name(#[trigger] ws[i])
}

/// What a recipe header holds: the name, the dependencies before `&&`, and those after it.
pub open spec fn header_of(l: Seq<char>) -> Option<(Seq<char>, Seq<Seq<char>>, Seq<Seq<char>>)> {
    match index_of_char(l, ':') {
        Some(k) => {
            let name = l.take(k);
            let rest = l.skip(k + 1);
            let ws = words(rest);
            if !is_name(name) || (rest.len() > 0 && rest[0] == '=') {
                None
            } else {
                match and_and_index(ws) {
                    None => if all_names(ws) { Some((name, ws, Seq::empty())) } else { None },
                    Some(a) => {
                        let prior = ws.take(a);
                        let subsequent = ws.skip(a + 1);
                        if all_names(prior) && all_names(subsequent) {
                            Some((name, prior, subsequent))
                        } else {
                            None
                        }
                    },
                }
            }
        },
        None => None,
    }
}

// ---------------------------------------------------------------------------
// Reading a whole text

/// What has been read of a justfile so far: its recipes, the hooks of the
/// recipe to come, and whether an indented line belongs to the last recipe.
pub struct ReadState {
    pub recipes: Seq<RecipeView>,
    pub pending: Seq<HookView>,
    pub in_body: bool,
}

/// What one line does to what has been read; an error where the line cannot be read.
pub open spec fn read_line(st: ReadState, raw: Seq<char>) -> Result<ReadState, ()> {
    let l = strip_cr(raw);
    if is_blank(l) {
        Ok(st)
    } else if is_blank_char(l[0]) {
        if st.in_body && st.recipes.len() > 0 {
            let last = st.recipes.last();
            Ok(ReadState {
                recipes: st.recipes.update(
                    st.recipes.len() - 1,
                    RecipeView { lines: add_body_line(last.lines, l), ..last },
                ),
                ..st
            })
        } else {
            Err(())
        }
    } else if l[0] == '#' {
        Ok(ReadState { in_body: false, ..st })
    } else if l[0] == '[' {
        match attribute_of(l) {
            Some((name, arg)) => match attribute_hook(name, arg) {
                Ok(Some(h)) => Ok(ReadState { pending: st.pending.push(h), in_body: false, ..st }),
                Ok(None) => Ok(ReadState { in_body: false, ..st }),
                Err(_) => Err(()),
            },
            None => Err(()),
        }
    } else {
        match header_of(l) {
            Some((name, prior, subsequent)) => Ok(ReadState {
                recipes: st.recipes.push(
                    RecipeView { name, hooks: st.pending, prior, subsequent, lines: Seq::empty() },
                ),
                pending: Seq::empty(),
                in_body: true,
            }),
            None => Err(()),
        }
    }
}

/// What the lines give, read in order; an error carries the number (from one) of
/// the first line that cannot be read.
pub open spec fn read_lines(ls: Seq<Seq<char>>) -> Result<ReadState, nat>
    decreases ls.len(),
{
    if ls.len() == 0 {
        Ok(ReadState { recipes: Seq::empty(), pending: Seq::empty(), in_body: false })
    } else {
        match read_lines(ls.drop_last()) {
            Err(n) => Err(n),
            Ok(st) => match read_line(st, ls.last()) {
                Ok(st2) => Ok(st2),
                Err(_) => Err(ls.len()),
            },
        }
    }
}


// ---------------------------------------------------------------------------
// Reading, executed

/// Where the first character of `cs` that is not a space or tab stands, or its length.
fn skip_blanks_index(cs: &Vec<char>) -> (k: usize)
    ensures
        k <= cs.len(),
        skip_blanks(cs@) == cs@.skip(k as int),
        forall|j: int| 0 <= j < k ==> is_blank_char(#[trigger] cs@[j]),
        k < cs.len() ==> !is_blank_char(cs@[k as int]),
{
    let mut i: usize = 0;
    assert(cs@.skip(0) =~= cs@);
    while i < cs.len() && (cs[i] == ' ' || cs[i] == '\t')
        invariant
            i <= cs.len(),
            skip_blanks(cs@) == skip_blanks(cs@.skip(i as int)),
            forall|j: int| 0 <= j < i ==> is_blank_char(#[trigger] cs@[j]),
        decreases cs.len() - i,
    {
        assert(cs@.skip(i as int).drop_first() =~= cs@.skip(i + 1));
        i = i + 1;
    }
    i
}

/// Where the trailing spaces and tabs of `cs` begin.
fn trim_blanks_end_index(cs: &Vec<char>) -> (e: usize)
    ensures
        e <= cs.len(),
        trim_blanks_end(cs@) == cs@.take(e as int),
{
    let mut e: usize = cs.len();
    assert(cs@.take(e as int) =~= cs@);
    while e > 0 && (cs[e - 1] == ' ' || cs[e - 1] == '\t')
        invariant
            e <= cs.len(),
            trim_blanks_end(cs@) == trim_blanks_end(cs@.take(e as int)),
        decreases e,
    {
        assert(cs@.take(e as int).drop_last() =~= cs@.take(e - 1));
        e = e - 1;
    }
    proof { lemma_trim_done(cs@, e); }
    e
}

proof fn lemma_trim_done(s: Seq<char>, e: usize)
    requires
        e <= s.len(),
        e == 0 || !is_blank_char(s[e - 1]),
    ensures
        trim_blanks_end(s.take(e as int)) == s.take(e as int),
{
    if e > 0 {
        assert(s.take(e as int).last() == s[e - 1]);
    }
}

/// Whether every character of `cs` is a space or tab.
fn is_blank_exec(cs: &Vec<char>) -> (r: bool)
    ensures
        r == is_blank(cs@),
{
    let k = skip_blanks_index(cs);
    if k < cs.len() {
        assert(!is_blank_char(cs@[k as int]));
        false
    } else {
        true
    }
}

/// Where `c` first occurs in `cs`.
fn index_of_char_exec(cs: &Vec<char>, c: char) -> (r: Option<usize>)
    ensures
        match r {
            Some(k) => index_of_char(cs@, c) == Some(k as int) && k < cs.len(),
            None => index_of_char(cs@, c) is None,
        },
{
    let mut i: usize = 0;
    while i < cs.len()
        invariant
            i <= cs.len(),
            forall|j: int| 0 <= j < i ==> cs@[j] != c,
        decreases cs.len() - i,
    {
        if cs[i] == c {
            let ghost k = choose|k: int| 0 <= k < cs@.len() && cs@[k] == c && forall|j: int| 0 <= j < k ==> cs@[j] != c;
            assert(k == i) by {
                if k > i {
                    assert(cs@[i as int] != c);
                }
            }
            return Some(i);
        }
        i = i + 1;
    }
    None
}

/// Whether `cs` is a name.
fn is_name_exec(cs: &Vec<char>) -> (r: bool)
    ensures
        r == is_name(cs@),
{
    if cs.len() == 0 {
        return false;
    }
    let c0 = cs[0];
    if !(('a' <= c0 && c0 <= 'z') || ('A' <= c0 && c0 <= 'Z') || c0 == '_') {
        return false;
    }
    let mut i: usize = 1;
    while i < cs.len()
        invariant
            1 <= i <= cs.len(),
            forall|j: int| 1 <= j < i ==> is_name_char(#[trigger] cs@[j]),
        decreases cs.len() - i,
    {
        let c = cs[i];
        if !(('a' <= c && c <= 'z') || ('A' <= c && c <= 'Z') || c == '_' || ('0' <= c && c <= '9') || c == '-') {
            assert(!is_name_char(cs@[i as int]));
            return false;
        }
        i = i + 1;
    }
    true
}

/// Whether the string is a name.
fn is_name_str(s: &str) -> (r: bool)
    ensures
        r == is_name(s@),
{
    let cs = chars_of(s);
    is_name_exec(&cs)
}

/// The words of `s`, separated by spaces and tabs.
fn words_exec(s: &str) -> (r: Vec<String>)
    ensures
        strs_view(r@) == words(s@),
{
    let cs = chars_of(s);
    let mut done: Vec<String> = Vec::new();
    let mut start: Option<usize> = None;
    let mut i: usize = 0;
    assert(cs@.take(0) =~= Seq::<char>::empty());
    while i < cs.len()
        invariant
            i <= cs.len(),
            cs@ == s@,
            words_from(s@.take(i as int)) == (strs_view(done@), match start {
                Some(st) => Some(st as int),
                None => None::<int>,
            }),
            match start {
                Some(st) => st < i,
                None => true,
            },
        decreases cs.len() - i,
    {
        let ghost pre = s@.take(i + 1);
        assert(pre.drop_last() =~= s@.take(i as int));
        assert(pre.last() == cs@[i as int]);
        if cs[i] == ' ' || cs[i] == '\t' {
            match start {
                Some(st) => {
                    let w = String::from_str(s.substring_char(st, i));
                    assert(pre.subrange(st as int, i as int) =~= s@.subrange(st as int, i as int));
                    let ghost d0 = done@;
                    done.push(w);
                    assert(strs_view(done@) =~= strs_view(d0).push(w@));
                    start = None;
                },
                None => {},
            }
        } else {
            match start {
                Some(st) => {},
                None => {
                    start = Some(i);
                },
            }
        }
        i = i + 1;
    }
    assert(s@.take(i as int) =~= s@);
    match start {
        Some(st) => {
            let w = String::from_str(s.substring_char(st, i));
            let ghost d0 = done@;
            done.push(w);
            assert(strs_view(done@) =~= strs_view(d0).push(w@));
        },
        None => {},
    }
    done
}


/// The strings of `ws` from `from` up to `to`.
fn slice_strings(ws: &Vec<String>, from: usize, to: usize) -> (r: Vec<String>)
    requires
        from <= to <= ws.len(),
    ensures
        strs_view(r@) == strs_view(ws@).subrange(from as int, to as int),
{
    let mut r: Vec<String> = Vec::new();
    let mut i = from;
    while i < to
        invariant
            from <= i <= to <= ws.len(),
            strs_view(r@) == strs_view(ws@).subrange(from as int, i as int),
        decreases to - i,
    {
        let ghost r0 = r@;
        r.push(ws[i].clone());
        assert(strs_view(r@) =~= strs_view(r0).push(ws@[i as int]@));
        assert(strs_view(ws@).subrange(from as int, i + 1) =~= strs_view(ws@).subrange(from as int, i as int).push(ws@[i as int]@));
        i = i + 1;
    }
    r
}

/// Whether the strings of `ws` from `from` up to `to` are all names.
fn all_names_exec(ws: &Vec<String>, from: usize, to: usize) -> (r: bool)
    requires
        from <= to <= ws.len(),
    ensures
        r == all_names(strs_view(ws@).subrange(from as int, to as int)),
{
    let ghost sub = strs_view(ws@).subrange(from as int, to as int);
    let mut i = from;
    while i < to
        invariant
            from <= i <= to <= ws.len(),
            sub == strs_view(ws@).subrange(from as int, to as int),
            forall|j: int| 0 <= j < i - from ==> is_name(#[trigger] sub[j]),
        decreases to - i,
    {
        if !is_name_str(ws[i].as_str()) {
            assert(sub[i - from] == ws@[i as int]@);
            return false;
        }
        assert(sub[i - from] == ws@[i as int]@);
        i = i + 1;
    }
    true
}

/// Where `&&` first occurs among the words.
fn and_and_exec(ws: &Vec<String>) -> (r: Option<usize>)
    ensures
        match r {
            Some(a) => and_and_index(strs_view(ws@)) == Some(a as int) && a < ws.len(),
            None => and_and_index(strs_view(ws@)) is None,
        },
{
    let ghost v = strs_view(ws@);
    let and_and = String::from_str("&&");
    let mut i: usize = 0;
    while i < ws.len()
        invariant
            i <= ws.len(),
            v == strs_view(ws@),
            and_and@ == "&&"@,
            forall|j: int| 0 <= j < i ==> v[j] != "&&"@,
        decreases ws.len() - i,
    {
        if ws[i] == and_and {
            assert(v[i as int] == "&&"@);
            let ghost k = choose|k: int| 0 <= k < v.len() && v[k] == "&&"@ && forall|j: int| 0 <= j < k ==> v[j] != "&&"@;
            assert(k == i) by {
                if k > i {
                    assert(v[i as int] != "&&"@);
                }
            }
            return Some(i);
        }
        assert(v[i as int] == ws@[i as int]@);
        i = i + 1;
    }
    None
}

/// What a recipe header holds, as `header_of` reads it.
fn header_exec(l: &str) -> (r: Option<(String, Vec<String>, Vec<String>)>)
    ensures
        match r {
            Some((name, prior, subsequent)) => header_of(l@) == Some((name@, strs_view(prior@), strs_view(subsequent@))),
            None => header_of(l@) is None,
        },
{
    let cs = chars_of(l);
    let k = match index_of_char_exec(&cs, ':') {
        Some(k) => k,
        None => {
            return None;
        },
    };
    let len = cs.len();
    let name = l.substring_char(0, k);
    let rest = l.substring_char(k + 1, len);
    assert(name@ =~= l@.take(k as int));
    assert(rest@ =~= l@.skip(k + 1));
    if !is_name_str(name) {
        return None;
    }
    if k + 1 < len && cs[k + 1] == '=' {
        assert(rest@[0] == l@[k + 1]);
        return None;
    }
    let ws = words_exec(rest);
    match and_and_exec(&ws) {
        None => {
            if all_names_exec(&ws, 0, ws.len()) {
                assert(strs_view(ws@).subrange(0, ws.len() as int) =~= strs_view(ws@));
                let empty: Vec<String> = Vec::new();
                assert(strs_view(empty@) =~= Seq::<Seq<char>>::empty());
                Some((String::from_str(name), ws, empty))
            } else {
                assert(strs_view(ws@).subrange(0, ws.len() as int) =~= strs_view(ws@));
                None
            }
        },
        Some(a) => {
            let n = ws.len();
            if all_names_exec(&ws, 0, a) && all_names_exec(&ws, a + 1, n) {
                let prior = slice_strings(&ws, 0, a);
                let subsequent = slice_strings(&ws, a + 1, n);
                assert(strs_view(ws@).subrange(0, a as int) =~= strs_view(ws@).take(a as int));
                assert(strs_view(ws@).subrange(a + 1, n as int) =~= strs_view(ws@).skip(a + 1));
                Some((String::from_str(name), prior, subsequent))
            } else {
                assert(strs_view(ws@).subrange(0, a as int) =~= strs_view(ws@).take(a as int));
                assert(strs_view(ws@).subrange(a + 1, n as int) =~= strs_view(ws@).skip(a + 1));
                None
            }
        },
    }
}

/// What an attribute line holds, as `attribute_of` reads it.
fn attribute_exec(l: &str) -> (r: Option<(String, Option<String>)>)
    ensures
        match r {
            Some((name, arg)) => attribute_of(l@) == Some((name@, crate::live_event::opt_str_view(arg))),
            None => attribute_of(l@) is None,
        },
{
    let cs = chars_of(l);
    let e = trim_blanks_end_index(&cs);
    let ghost t = l@.take(e as int);
    if !(e >= 2 && cs[0] == '[' && cs[e - 1] == ']') {
        return None;
    }
    assert(t[0] == cs@[0] && t.last() == cs@[e - 1]);
    let inner = l.substring_char(1, e - 1);
    assert(inner@ =~= t.subrange(1, t.len() - 1));
    let ics = chars_of(inner);
    let ilen = ics.len();
    match index_of_char_exec(&ics, '(') {
        None => {
            if is_name_exec(&ics) {
                Some((String::from_str(inner), None))
            } else {
                None
            }
        },
        Some(k) => {
            let name = inner.substring_char(0, k);
            assert(name@ =~= inner@.take(k as int));
            let ghost rest = inner@.skip(k as int);
            if !is_name_str(name) {
                return None;
            }
            if !(ilen - k >= 4) {
                return None;
            }
            assert(rest[1] == ics@[k + 1]);
            assert(rest[rest.len() - 2] == ics@[ilen - 2]);
            assert(rest[rest.len() - 1] == ics@[ilen - 1]);
            if !(ics[k + 1] == '"' && ics[ilen - 2] == '"' && ics[ilen - 1] == ')') {
                return None;
            }
            let arg = inner.substring_char(k + 2, ilen - 2);
            assert(arg@ =~= rest.subrange(2, rest.len() - 2));
            let acs = chars_of(arg);
            match index_of_char_exec(&acs, '"') {
                Some(_) => None,
                None => Some((String::from_str(name), Some(String::from_str(arg)))),
            }
        },
    }
}


/// The command line that an indented line holds, as `body_line` reads it.
fn body_line_exec(l: &str) -> (r: Line)
    ensures
        r@ == body_line(l@),
{
    let cs = chars_of(l);
    let k = skip_blanks_index(&cs);
    let len = cs.len();
    if k < len && cs[k] == '@' {
        let command = String::from_str(l.substring_char(k + 1, len));
        assert(command@ =~= l@.skip(k as int).drop_first());
        Line { command, quiet: true }
    } else {
        let command = String::from_str(l.substring_char(k, len));
        assert(command@ =~= l@.skip(k as int));
        Line { command, quiet: false }
    }
}

/// Adds the indented line `l` to a recipe's command lines, as `add_body_line` does.
fn add_body_line_exec(lines: &mut Vec<Line>, l: &str)
    ensures
        final(lines)@.map_values(|x: Line| x@) == add_body_line(old(lines)@.map_values(|x: Line| x@), l@),
{
    let ghost before = lines@.map_values(|x: Line| x@);
    let n = lines.len();
    if n > 0 {
        let command = &lines[n - 1].command;
        let clen = command.as_str().unicode_len();
        assert(before.last() == lines@[n - 1]@);
        if clen > 0 && command.as_str().get_char(clen - 1) == '\\' {
            let last = lines.pop().unwrap();
            let cs = chars_of(l);
            let k = skip_blanks_index(&cs);
            let mut joined = String::from_str(last.command.as_str().substring_char(0, clen - 1));
            joined.append(l.substring_char(k, cs.len()));
            assert(joined@ =~= last.command@.drop_last() + skip_blanks(l@));
            lines.push(Line { command: joined, quiet: last.quiet });
            assert(lines@.map_values(|x: Line| x@) =~= add_body_line(before, l@));
            return;
        }
    }
    let line = body_line_exec(l);
    lines.push(line);
    assert(lines@.map_values(|x: Line| x@) =~= add_body_line(before, l@));
}

/// What has been read of a justfile so far.
struct Reader {
    recipes: Vec<Recipe>,
    pending: Vec<Hook>,
    in_body: bool,
}

impl View for Reader {
    type V = ReadState;

    closed spec fn view(&self) -> ReadState {
        ReadState {
            recipes: recipes_view(self.recipes@),
            pending: self.pending@.map_values(|h: Hook| h@),
            in_body: self.in_body,
        }
    }
}

impl Reader {
    fn read_line_exec(&mut self, raw: &str) -> (ok: bool)
        ensures
            ok == read_line(old(self)@, raw@) is Ok,
            ok ==> final(self)@ == read_line(old(self)@, raw@)->Ok_0,
    {
        let rcs = chars_of(raw);
        let rlen = rcs.len();
        let l = if rlen > 0 && rcs[rlen - 1] == '\r' {
            raw.substring_char(0, rlen - 1)
        } else {
            raw.substring_char(0, rlen)
        };
        assert(l@ =~= strip_cr(raw@));
        let cs = chars_of(l);
        if is_blank_exec(&cs) {
            return true;
        }
        let c0 = cs[0];
        if c0 == ' ' || c0 == '\t' {
            if self.in_body && self.recipes.len() > 0 {
                let ghost st = self@;
                let mut last = self.recipes.pop().unwrap();
                let ghost last0 = last@;
                add_body_line_exec(&mut last.lines, l);
                assert(last@.lines =~= add_body_line(last0.lines, l@));
                self.recipes.push(last);
                assert(self@.recipes =~= st.recipes.update(
                    st.recipes.len() - 1,
                    RecipeView { lines: add_body_line(st.recipes.last().lines, l@), ..st.recipes.last() },
                ));
                return true;
            } else {
                return false;
            }
        }
        if c0 == '#' {
            self.in_body = false;
            return true;
        }
        if c0 == '[' {
            match attribute_exec(l) {
                Some((name, arg)) => {
                    let is_before = name == String::from_str("before");
                    let is_after = name == String::from_str("after");
                    if is_before || is_after {
                        match arg {
                            Some(target) => {
                                let kind = if is_before { HookKind::Before } else { HookKind::After };
                                let ghost p0 = self@.pending;
                                self.pending.push(Hook { kind, target });
                                assert(self@.pending =~= p0.push(HookView { kind, target: target@ }));
                                self.in_body = false;
                                return true;
                            },
                            None => {
                                return false;
                            },
                        }
                    } else {
                        self.in_body = false;
                        return true;
                    }
                },
                None => {
                    return false;
                },
            }
        }
        match header_exec(l) {
            Some((name, prior, subsequent)) => {
                let mut hooks: Vec<Hook> = Vec::new();
                std::mem::swap(&mut hooks, &mut self.pending);
                let ghost st = old(self)@;
                let r = Recipe { name, hooks, prior, subsequent, lines: Vec::new() };
                assert(r@.lines =~= Seq::<LineView>::empty());
                let ghost rv = r@;
                self.recipes.push(r);
                self.in_body = true;
                assert(self@.recipes =~= st.recipes.push(rv));
                assert(self@.pending =~= Seq::<HookView>::empty());
                true
            },
            None => false,
        }
    }
}


// ---------------------------------------------------------------------------
// Errors and checks

/// Why a justfile cannot be read or run.
#[derive(Debug)]
pub enum JustfileError {
    /// The line, counted from one, cannot be read; or an attribute stands after the last recipe.
    Syntax { line: usize },
    DuplicateRecipe { name: String },
    UnknownDependency { recipe: String, dependency: String },
    UnknownHookTarget { hook: String, target: String },
    UnknownRecipe { name: String },
    CircularDependency { recipe: String },
    NoRecipes,
    UnknownOption { option: String },
}

pub enum JustfileErrorView {
    Syntax { line: nat },
    DuplicateRecipe { name: Seq<char> },
    UnknownDependency { recipe: Seq<char>, dependency: Seq<char> },
    UnknownHookTarget { hook: Seq<char>, target: Seq<char> },
    UnknownRecipe { name: Seq<char> },
    CircularDependency { recipe: Seq<char> },
    NoRecipes,
    UnknownOption { option: Seq<char> },
}

impl View for JustfileError {
    type V = JustfileErrorView;

    open spec fn view(&self) -> JustfileErrorView {
        match self {
            JustfileError::Syntax { line } => JustfileErrorView::Syntax { line: *line as nat },
            JustfileError::DuplicateRecipe { name } => JustfileErrorView::DuplicateRecipe { name: name@ },
            JustfileError::UnknownDependency { recipe, dependency } =>
                JustfileErrorView::UnknownDependency { recipe: recipe@, dependency: dependency@ },
            JustfileError::UnknownHookTarget { hook, target } =>
                JustfileErrorView::UnknownHookTarget { hook: hook@, target: target@ },
            JustfileError::UnknownRecipe { name } => JustfileErrorView::UnknownRecipe { name: name@ },
            JustfileError::CircularDependency { recipe } => JustfileErrorView::CircularDependency { recipe: recipe@ },
            JustfileError::NoRecipes => JustfileErrorView::NoRecipes,
            JustfileError::UnknownOption { option } => JustfileErrorView::UnknownOption { option: option@ },
        }
    }
}

/// The message that reports an error.
pub open spec fn error_message(e: JustfileErrorView) -> Seq<char> {
    match e {
        JustfileErrorView::Syntax { line } => "Syntax error on line "@ + crate::decimal::nat_digits(line),
        JustfileErrorView::DuplicateRecipe { name } => "Recipe `"@ + name + "` is defined more than once"@,
        JustfileErrorView::UnknownDependency { recipe, dependency } =>
            "Recipe `"@ + recipe + "` has unknown dependency `"@ + dependency + "`"@,
        JustfileErrorView::UnknownHookTarget { hook, target } =>
            "Hook recipe `"@ + hook + "` targets unknown recipe `"@ + target + "`"@,
        JustfileErrorView::UnknownRecipe { name } => "Justfile does not contain recipe `"@ + name + "`"@,
        JustfileErrorView::CircularDependency { recipe } => "Recipe `"@ + recipe + "` has circular dependency"@,
        JustfileErrorView::NoRecipes => "Justfile contains no recipes"@,
        JustfileErrorView::UnknownOption { option } => "Unknown option `"@ + option + "`"@,
    }
}

impl JustfileError {
    /// The message that reports the error.
    pub fn message(&self) -> (r: String)
        ensures
            r@ == error_message(self@),
    {
        match self {
            JustfileError::Syntax { line } => {
                let mut r = String::from_str("Syntax error on line ");
                crate::decimal::push_u64(&mut r, *line as u64);
                r
            },
            JustfileError::DuplicateRecipe { name } => {
                let mut r = String::from_str("Recipe `");
                r.append(name.as_str());
                r.append("` is defined more than once");
                r
            },
            JustfileError::UnknownDependency { recipe, dependency } => {
                let mut r = String::from_str("Recipe `");
                r.append(recipe.as_str());
                r.append("` has unknown dependency `");
                r.append(dependency.as_str());
                r.append("`");
                r
            },
            JustfileError::UnknownHookTarget { hook, target } => {
                let mut r = String::from_str("Hook recipe `");
                r.append(hook.as_str());
                r.append("` targets unknown recipe `");
                r.append(target.as_str());
                r.append("`");
                r
            },
            JustfileError::UnknownRecipe { name } => {
                let mut r = String::from_str("Justfile does not contain recipe `");
                r.append(name.as_str());
                r.append("`");
                r
            },
            JustfileError::CircularDependency { recipe } => {
                let mut r = String::from_str("Recipe `");
                r.append(recipe.as_str());
                r.append("` has circular dependency");
                r
            },
            JustfileError::NoRecipes => String::from_str("Justfile contains no recipes"),
            JustfileError::UnknownOption { option } => {
                let mut r = String::from_str("Unknown option `");
                r.append(option.as_str());
                r.append("`");
                r
            },
        }
    }

    /// The exit status that the error ends a run with.
    pub fn exit_code(&self) -> (r: i32)
        ensures
            r == 1,
    {
        1
    }
}

/// Whether some recipe has the name.
pub open spec fn has_recipe(rs: Seq<RecipeView>, name: Seq<char>) -> bool {
    exists|i: int| 0 <= i < rs.len() && rs[i].name == name
}

/// The first of the names that is no recipe.
pub open spec fn first_missing(rs: Seq<RecipeView>, names: Seq<Seq<char>>) -> Option<Seq<char>>
    decreases names.len(),
{
    if names.len() == 0 {
        None
    } else {
        match first_missing(rs, names.drop_last()) {
            Some(n) => Some(n),
            None => if has_recipe(rs, names.last()) { None } else { Some(names.last()) },
        }
    }
}

/// The target of the first hook whose target is no recipe.
pub open spec fn first_missing_target(rs: Seq<RecipeView>, hooks: Seq<HookView>) -> Option<Seq<char>>
    decreases hooks.len(),
{
    if hooks.len() == 0 {
        None
    } else {
        match first_missing_target(rs, hooks.drop_last()) {
            Some(n) => Some(n),
            None => if has_recipe(rs, hooks.last().target) { None } else { Some(hooks.last().target) },
        }
    }
}

/// What is wrong with the recipe at `i`: its name taken by an earlier recipe, an
/// unknown dependency, or a hook of an unknown recipe; in that order.
pub open spec fn recipe_error(rs: Seq<RecipeView>, i: int) -> Option<JustfileErrorView> {
    let r = rs[i];
    if exists|j: int| 0 <= j < i && rs[j].name == r.name {
        Some(JustfileErrorView::DuplicateRecipe { name: r.name })
    } else {
        match first_missing(rs, r.prior + r.subsequent) {
            Some(d) => Some(JustfileErrorView::UnknownDependency { recipe: r.name, dependency: d }),
            None => match first_missing_target(rs, r.hooks) {
                Some(t) => Some(JustfileErrorView::UnknownHookTarget { hook: r.name, target: t }),
                None => None,
            },
        }
    }
}

/// The first error among the first `k` recipes.
pub open spec fn first_error(rs: Seq<RecipeView>, k: nat) -> Option<JustfileErrorView>
    decreases k,
{
    if k == 0 {
        None
    } else {
        match first_error(rs, (k - 1) as nat) {
            Some(e) => Some(e),
            None => recipe_error(rs, k - 1),
        }
    }
}

/// What a justfile's text gives: its recipes, or the first error.
pub open spec fn parse_spec(text: Seq<char>) -> Result<Seq<RecipeView>, JustfileErrorView> {
    let ls = lines_of(text);
    match read_lines(ls) {
        Err(n) => Err(JustfileErrorView::Syntax { line: n }),
        Ok(st) => if st.pending.len() > 0 {
            Err(JustfileErrorView::Syntax { line: ls.len() })
        } else {
            match first_error(st.recipes, st.recipes.len()) {
                Some(e) => Err(e),
                None => Ok(st.recipes),
            }
        },
    }
}


fn has_recipe_exec(recipes: &Vec<Recipe>, name: &String) -> (r: bool)
    ensures
        r == has_recipe(recipes_view(recipes@), name@),
{
    let ghost rs = recipes_view(recipes@);
    let mut i: usize = 0;
    while i < recipes.len()
        invariant
            i <= recipes.len(),
            rs == recipes_view(recipes@),
            forall|j: int| 0 <= j < i ==> rs[j].name != name@,
        decreases recipes.len() - i,
    {
        if recipes[i].name == *name {
            assert(rs[i as int].name == name@);
            return true;
        }
        i = i + 1;
    }
    false
}

fn first_missing_exec(recipes: &Vec<Recipe>, names: &Vec<String>) -> (r: Option<String>)
    ensures
        crate::live_event::opt_str_view(r) == first_missing(recipes_view(recipes@), strs_view(names@)),
{
    let ghost rs = recipes_view(recipes@);
    let ghost ns = strs_view(names@);
    let mut i: usize = 0;
    assert(ns.take(0) =~= Seq::<Seq<char>>::empty());
    while i < names.len()
        invariant
            i <= names.len(),
            rs == recipes_view(recipes@),
            ns == strs_view(names@),
            first_missing(rs, ns.take(i as int)) is None,
        decreases names.len() - i,
    {
        assert(ns.take(i + 1).drop_last() =~= ns.take(i as int));
        assert(ns.take(i + 1).last() == names@[i as int]@);
        if !has_recipe_exec(recipes, &names[i]) {
            let ghost pre = ns.take(i + 1);
            assert(first_missing(rs, pre) == Some(names@[i as int]@));
            assert(first_missing(rs, ns) == first_missing(rs, pre)) by {
                lemma_first_missing_prefix(rs, ns, (i + 1) as int);
            }
            return Some(names[i].clone());
        }
        i = i + 1;
    }
    assert(ns.take(i as int) =~= ns);
    None
}

/// Where a prefix of the names already has a missing one, the whole list has the same first.
proof fn lemma_first_missing_prefix(rs: Seq<RecipeView>, ns: Seq<Seq<char>>, k: int)
    requires
        0 <= k <= ns.len(),
        first_missing(rs, ns.take(k)) is Some,
    ensures
        first_missing(rs, ns) == first_missing(rs, ns.take(k)),
    decreases ns.len() - k,
{
    if k < ns.len() {
        assert(ns.take(k + 1).drop_last() =~= ns.take(k));
        lemma_first_missing_prefix(rs, ns, k + 1);
    } else {
        assert(ns.take(k) =~= ns);
    }
}

/// Where a prefix of the hooks already has a missing target, the whole list has the same first.
proof fn lemma_first_missing_target_prefix(rs: Seq<RecipeView>, hs: Seq<HookView>, k: int)
    requires
        0 <= k <= hs.len(),
        first_missing_target(rs, hs.take(k)) is Some,
    ensures
        first_missing_target(rs, hs) == first_missing_target(rs, hs.take(k)),
    decreases hs.len() - k,
{
    if k < hs.len() {
        assert(hs.take(k + 1).drop_last() =~= hs.take(k));
        lemma_first_missing_target_prefix(rs, hs, k + 1);
    } else {
        assert(hs.take(k) =~= hs);
    }
}

fn first_missing_target_exec(recipes: &Vec<Recipe>, hooks: &Vec<Hook>) -> (r: Option<String>)
    ensures
        crate::live_event::opt_str_view(r) == first_missing_target(recipes_view(recipes@), hooks@.map_values(|h: Hook| h@)),
{
    let ghost rs = recipes_view(recipes@);
    let ghost hs = hooks@.map_values(|h: Hook| h@);
    let mut i: usize = 0;
    assert(hs.take(0) =~= Seq::<HookView>::empty());
    while i < hooks.len()
        invariant
            i <= hooks.len(),
            rs == recipes_view(recipes@),
            hs == hooks@.map_values(|h: Hook| h@),
            first_missing_target(rs, hs.take(i as int)) is None,
        decreases hooks.len() - i,
    {
        assert(hs.take(i + 1).drop_last() =~= hs.take(i as int));
        assert(hs.take(i + 1).last() == hooks@[i as int]@);
        if !has_recipe_exec(recipes, &hooks[i].target) {
            assert(first_missing_target(rs, hs) == first_missing_target(rs, hs.take(i + 1))) by {
                lemma_first_missing_target_prefix(rs, hs, (i + 1) as int);
            }
            return Some(hooks[i].target.clone());
        }
        i = i + 1;
    }
    assert(hs.take(i as int) =~= hs);
    None
}

fn concat_strings(a: &Vec<String>, b: &Vec<String>) -> (r: Vec<String>)
    ensures
        strs_view(r@) == strs_view(a@) + strs_view(b@),
{
    let mut r: Vec<String> = Vec::new();
    let mut i: usize = 0;
    while i < a.len()
        invariant
            i <= a.len(),
            strs_view(r@) == strs_view(a@).take(i as int),
        decreases a.len() - i,
    {
        let ghost r0 = r@;
        r.push(a[i].clone());
        assert(strs_view(r@) =~= strs_view(r0).push(a@[i as int]@));
        assert(strs_view(a@).take(i + 1) =~= strs_view(a@).take(i as int).push(a@[i as int]@));
        i = i + 1;
    }
    let mut k: usize = 0;
    assert(strs_view(a@).take(i as int) =~= strs_view(a@));
    while k < b.len()
        invariant
            k <= b.len(),
            strs_view(r@) == strs_view(a@) + strs_view(b@).take(k as int),
        decreases b.len() - k,
    {
        let ghost r0 = r@;
        r.push(b[k].clone());
        assert(strs_view(r@) =~= strs_view(r0).push(b@[k as int]@));
        assert(strs_view(b@).take(k + 1) =~= strs_view(b@).take(k as int).push(b@[k as int]@));
        k = k + 1;
    }
    assert(strs_view(b@).take(k as int) =~= strs_view(b@));
    r
}

fn recipe_error_exec(recipes: &Vec<Recipe>, i: usize) -> (r: Option<JustfileError>)
    requires
        i < recipes.len(),
    ensures
        match r {
            Some(e) => recipe_error(recipes_view(recipes@), i as int) == Some(e@),
            None => recipe_error(recipes_view(recipes@), i as int) is None,
        },
{
    let ghost rs = recipes_view(recipes@);
    let r = &recipes[i];
    let mut j: usize = 0;
    while j < i
        invariant
            j <= i < recipes.len(),
            rs == recipes_view(recipes@),
            r@ == rs[i as int],
            forall|k: int| 0 <= k < j ==> rs[k].name != rs[i as int].name,
        decreases i - j,
    {
        if recipes[j].name == r.name {
            assert(rs[j as int].name == rs[i as int].name);
            return Some(JustfileError::DuplicateRecipe { name: r.name.clone() });
        }
        j = j + 1;
    }
    let deps = concat_strings(&r.prior, &r.subsequent);
    match first_missing_exec(recipes, &deps) {
        Some(d) => {
            return Some(JustfileError::UnknownDependency { recipe: r.name.clone(), dependency: d });
        },
        None => {},
    }
    match first_missing_target_exec(recipes, &r.hooks) {
        Some(t) => Some(JustfileError::UnknownHookTarget { hook: r.name.clone(), target: t }),
        None => None,
    }
}

fn first_error_exec(recipes: &Vec<Recipe>) -> (r: Option<JustfileError>)
    ensures
        match r {
            Some(e) => first_error(recipes_view(recipes@), recipes@.len()) == Some(e@),
            None => first_error(recipes_view(recipes@), recipes@.len()) is None,
        },
{
    let ghost rs = recipes_view(recipes@);
    let mut k: usize = 0;
    while k < recipes.len()
        invariant
            k <= recipes.len(),
            rs == recipes_view(recipes@),
            first_error(rs, k as nat) is None,
        decreases recipes.len() - k,
    {
        match recipe_error_exec(recipes, k) {
            Some(e) => {
                assert(first_error(rs, (k + 1) as nat) == Some(e@));
                proof { lemma_first_error_prefix(rs, (k + 1) as nat); }
                return Some(e);
            },
            None => {},
        }
        k = k + 1;
    }
    None
}

/// Where the first `k` recipes already have an error, all of them have the same first.
proof fn lemma_first_error_prefix(rs: Seq<RecipeView>, k: nat)
    requires
        k <= rs.len(),
        first_error(rs, k) is Some,
    ensures
        first_error(rs, rs.len()) == first_error(rs, k),
    decreases rs.len() - k,
{
    if k < rs.len() {
        lemma_first_error_prefix(rs, k + 1);
    }
}


proof fn lemma_lines_nonempty(s: Seq<char>)
    ensures
        lines_of(s).len() >= 1,
    decreases s.len(),
{
    if s.len() > 0 {
        lemma_lines_nonempty(s.drop_last());
    }
}

/// The lines that a prefix of a text completes are the first lines of the text.
proof fn lemma_lines_grow(s: Seq<char>, i: int)
    requires
        0 <= i <= s.len(),
    ensures
        lines_of(s.take(i)).len() >= 1,
        lines_of(s).len() >= lines_of(s.take(i)).len(),
        lines_of(s).take(lines_of(s.take(i)).len() - 1) == lines_of(s.take(i)).drop_last(),
    decreases s.len() - i,
{
    lemma_lines_nonempty(s.take(i));
    lemma_lines_nonempty(s);
    if i == s.len() {
        assert(s.take(i) =~= s);
        assert(lines_of(s).take(lines_of(s).len() - 1) =~= lines_of(s).drop_last());
    } else {
        lemma_lines_grow(s, i + 1);
        let a = lines_of(s.take(i));
        let b = lines_of(s.take(i + 1));
        assert(s.take(i + 1).drop_last() =~= s.take(i));
        if s[i] == '\n' {
            assert(b =~= a.push(Seq::empty()));
            assert(b.drop_last() =~= a);
            assert(lines_of(s).take(a.len() - 1) =~= b.drop_last().take(a.len() - 1));
            assert(a.take(a.len() - 1) =~= a.drop_last());
        } else {
            assert(b.len() == a.len());
            assert(b.drop_last() =~= a.drop_last());
        }
    }
}

/// Once some line cannot be read, the whole text cannot, for the same line.
proof fn lemma_read_error_prefix(ls: Seq<Seq<char>>, k: int)
    requires
        0 <= k <= ls.len(),
        read_lines(ls.take(k)) is Err,
    ensures
        read_lines(ls) == read_lines(ls.take(k)),
    decreases ls.len() - k,
{
    if k < ls.len() {
        assert(ls.take(k + 1).drop_last() =~= ls.take(k));
        lemma_read_error_prefix(ls, k + 1);
    } else {
        assert(ls.take(k) =~= ls);
    }
}

// ---------------------------------------------------------------------------
// Justfiles

/// A justfile that has been read and checked.
#[derive(Debug)]
pub struct Justfile {
    recipes: Vec<Recipe>,
}

impl View for Justfile {
    type V = Seq<RecipeView>;

    closed spec fn view(&self) -> Seq<RecipeView> {
        recipes_view(self.recipes@)
    }
}

impl Justfile {
    /// A checked justfile: names are defined once, and every dependency and
    /// every hook target is a recipe.
    pub closed spec fn wf(&self) -> bool {
        first_error(self@, self@.len()) is None
    }

    /// The recipes, in the order of the text.
    pub fn recipes(&self) -> (r: &Vec<Recipe>)
        ensures
            recipes_view(r@) == self@,
    {
        &self.recipes
    }

    /// Reads and checks the text of a justfile.
    pub fn parse(text: &str) -> (r: Result<Justfile, JustfileError>)
        requires
            text@.len() < usize::MAX,
        ensures
            match r {
                Ok(j) => parse_spec(text@) == Ok::<Seq<RecipeView>, JustfileErrorView>(j@) && j.wf(),
                Err(e) => parse_spec(text@) == Err::<Seq<RecipeView>, JustfileErrorView>(e@),
            },
    {
        let cs = chars_of(text);
        let len = cs.len();
        let mut reader = Reader { recipes: Vec::new(), pending: Vec::new(), in_body: false };
        assert(reader@.recipes =~= Seq::<RecipeView>::empty());
        assert(reader@.pending =~= Seq::<HookView>::empty());
        let mut line_start: usize = 0;
        let mut lineno: usize = 0;
        assert(text@.take(0) =~= Seq::<char>::empty());
        assert(lines_of(text@.take(0)).drop_last() =~= Seq::<Seq<char>>::empty());
        assert(text@.subrange(0, 0) =~= Seq::<char>::empty());
        let mut i: usize = 0;
        while i < len
            invariant
                i <= len,
                len == text@.len(),
                cs@ == text@,
                line_start <= i,
                lineno <= i,
                lines_of(text@.take(i as int)).len() == lineno + 1,
                lines_of(text@.take(i as int)).last() == text@.subrange(line_start as int, i as int),
                read_lines(lines_of(text@.take(i as int)).drop_last()) == Ok::<ReadState, nat>(reader@),
            decreases len - i,
        {
            let ghost li = lines_of(text@.take(i as int));
            let ghost pre = text@.take(i + 1);
            assert(pre.drop_last() =~= text@.take(i as int));
            assert(pre.last() == cs@[i as int]);
            if cs[i] == '\n' {
                let line = text.substring_char(line_start, i);
                let ok = reader.read_line_exec(line);
                assert(li.drop_last().push(li.last()) =~= li);
                assert(lines_of(pre).drop_last() =~= li);
                if !ok {
                    proof {
                        lemma_lines_grow(text@, i + 1);
                        lemma_read_error_prefix(lines_of(text@), li.len() as int);
                    }
                    return Err(JustfileError::Syntax { line: lineno + 1 });
                }
                lineno = lineno + 1;
                line_start = i + 1;
                assert(text@.subrange(line_start as int, i + 1) =~= Seq::<char>::empty());
            } else {
                assert(lines_of(pre).drop_last() =~= li.drop_last());
                assert(text@.subrange(line_start as int, i + 1) =~= text@.subrange(line_start as int, i as int).push(cs@[i as int]));
            }
            i = i + 1;
        }
        assert(text@.take(len as int) =~= text@);
        let ghost ls = lines_of(text@);
        let last_line = text.substring_char(line_start, len);
        let ok = reader.read_line_exec(last_line);
        assert(ls.drop_last().push(ls.last()) =~= ls);
        if !ok {
            return Err(JustfileError::Syntax { line: lineno + 1 });
        }
        if reader.pending.len() > 0 {
            return Err(JustfileError::Syntax { line: lineno + 1 });
        }
        match first_error_exec(&reader.recipes) {
            Some(e) => Err(e),
            None => Ok(Justfile { recipes: reader.recipes }),
        }
    }
}


proof fn lemma_no_missing_target(rs: Seq<RecipeView>, hs: Seq<HookView>, j: int)
    requires
        first_missing_target(rs, hs) is None,
        0 <= j < hs.len(),
    ensures
        has_recipe(rs, hs[j].target),
    decreases hs.len(),
{
    if j < hs.len() - 1 {
        assert(hs.drop_last()[j] == hs[j]);
        lemma_no_missing_target(rs, hs.drop_last(), j);
    }
}

proof fn lemma_no_missing(rs: Seq<RecipeView>, ns: Seq<Seq<char>>, j: int)
    requires
        first_missing(rs, ns) is None,
        0 <= j < ns.len(),
    ensures
        has_recipe(rs, ns[j]),
    decreases ns.len(),
{
    if j < ns.len() - 1 {
        assert(ns.drop_last()[j] == ns[j]);
        lemma_no_missing(rs, ns.drop_last(), j);
    }
}

/// Dropping trailing blanks keeps the start of a line as it is.
proof fn lemma_trim_is_prefix(l: Seq<char>)
    ensures
        trim_blanks_end(l).len() <= l.len(),
        forall|i: int| 0 <= i < trim_blanks_end(l).len() ==> #[trigger] trim_blanks_end(l)[i] == l[i],
    decreases l.len(),
{
    if l.len() > 0 && is_blank_char(l.last()) {
        lemma_trim_is_prefix(l.drop_last());
    }
}

/// An attribute line whose attribute is neither `before` nor `after`, with or
/// without a quoted argument (such as `[group("ci")]` or `[private]`), is
/// accepted and changes nothing that has been read, but that it ends the
/// recipe above it.
pub proof fn lemma_other_attributes_accepted(
    st: ReadState,
    raw: Seq<char>,
    name: Seq<char>,
    arg: Option<Seq<char>>,
)
    requires
        attribute_of(strip_cr(raw)) == Some((name, arg)),
        name != "before"@,
        name != "after"@,
    ensures
        read_line(st, raw) == Ok::<ReadState, ()>(ReadState { in_body: false, ..st }),
{
    let l = strip_cr(raw);
    let t = trim_blanks_end(l);
    lemma_trim_is_prefix(l);
    assert(t[0] == l[0]);
    assert(!is_blank_char(l[0]));
}

/// `[before("target")]` and `[after("target")]` make the recipe below a hook of
/// `target`, running before it or after it: the hook waits, after those read
/// before it, for the next recipe header. Either one without a target is an
/// error.
pub proof fn lemma_hook_attributes(
    st: ReadState,
    raw: Seq<char>,
    name: Seq<char>,
    arg: Option<Seq<char>>,
)
    requires
        attribute_of(strip_cr(raw)) == Some((name, arg)),
        name == "before"@ || name == "after"@,
    ensures
        match arg {
            Some(target) => read_line(st, raw) == Ok::<ReadState, ()>(ReadState {
                pending: st.pending.push(
                    HookView { kind: if name == "before"@ { HookKind::Before } else { HookKind::After }, target },
                ),
                in_body: false,
                ..st
            }),
            None => read_line(st, raw) is Err,
        },
{
    let l = strip_cr(raw);
    let t = trim_blanks_end(l);
    lemma_trim_is_prefix(l);
    assert(t[0] == l[0]);
    assert(!is_blank_char(l[0]));
}

/// A recipe header starts a new recipe, after those read: its name and its
/// dependencies, the hooks that its attributes made, and no command line yet.
/// Indented lines that follow are its command lines.
pub proof fn lemma_header_starts_recipe(
    st: ReadState,
    raw: Seq<char>,
    name: Seq<char>,
    prior: Seq<Seq<char>>,
    subsequent: Seq<Seq<char>>,
)
    requires
        header_of(strip_cr(raw)) == Some((name, prior, subsequent)),
    ensures
        read_line(st, raw) == Ok::<ReadState, ()>(ReadState {
            recipes: st.recipes.push(RecipeView { name, hooks: st.pending, prior, subsequent, lines: Seq::empty() }),
            pending: Seq::empty(),
            in_body: true,
        }),
{
    let l = strip_cr(raw);
    let k = index_of_char(l, ':')->0;
    assert(l.take(k)[0] == l[0]);
}

/// Leading blanks dropped from a line that is not blank leave the rest of it,
/// which begins with a character other than a space or tab.
proof fn lemma_skip_blanks_rest(l: Seq<char>)
    requires
        !is_blank(l),
    ensures
        ({
            let b = skip_blanks(l);
            let n = l.len() - b.len();
            &&& 0 <= n < l.len()
            &&& b == l.skip(n)
            &&& forall|j: int| 0 <= j < n ==> is_blank_char(#[trigger] l[j])
            &&& !is_blank_char(b[0])
        }),
    decreases l.len(),
{
    if l.len() > 0 && is_blank_char(l[0]) {
        let t = l.drop_first();
        assert(!is_blank(t)) by {
            let i = choose|i: int| 0 <= i < l.len() && !is_blank_char(l[i]);
            assert(t[i - 1] == l[i]);
        }
        lemma_skip_blanks_rest(t);
        let b = skip_blanks(t);
        assert(b == t.skip(t.len() - b.len()));
        assert(t.skip(t.len() - b.len()) =~= l.skip(l.len() - b.len()));
        assert forall|j: int| 0 <= j < l.len() - b.len() implies is_blank_char(#[trigger] l[j]) by {
            if j > 0 {
                assert(l[j] == t[j - 1]);
            }
        }
    } else {
        assert(l.skip(0) =~= l);
        if l.len() == 0 {
            assert(is_blank(l));
        }
    }
}

/// An indented line in a recipe's body adds to the recipe's command lines, the
/// other recipes staying as they are. Its text is what follows its leading
/// spaces and tabs. Where the recipe's last command line ends in a backslash,
/// that line goes on with this text, the backslash dropped, and stays as quiet
/// as it was. Else the text is a new command line, after the others: quiet
/// where it begins with `@`, which is then not part of the command, so that
/// a quiet line is not echoed and any other is.
pub proof fn lemma_body_line_read(st: ReadState, raw: Seq<char>)
    requires
        st.in_body,
        st.recipes.len() > 0,
        !is_blank(strip_cr(raw)),
        is_blank_char(strip_cr(raw)[0]),
    ensures
        ({
            let l = strip_cr(raw);
            let text = skip_blanks(l);
            let n = l.len() - text.len();
            let last = st.recipes.last();
            let ls = last.lines;
            let r = read_line(st, raw);
            &&& 0 < n < l.len()
            &&& text == l.skip(n)
            &&& forall|j: int| 0 <= j < n ==> is_blank_char(#[trigger] l[j])
            &&& !is_blank_char(text[0])
            &&& r is Ok
            &&& r->Ok_0.pending == st.pending
            &&& r->Ok_0.in_body
            &&& r->Ok_0.recipes.len() == st.recipes.len()
            &&& forall|i: int| 0 <= i < st.recipes.len() - 1 ==> #[trigger] r->Ok_0.recipes[i] == st.recipes[i]
            &&& r->Ok_0.recipes.last() == RecipeView { lines: r->Ok_0.recipes.last().lines, ..last }
            &&& (ls.len() > 0 && ls.last().command.len() > 0 && ls.last().command.last() == '\\') ==>
                r->Ok_0.recipes.last().lines == ls.update(
                    ls.len() - 1,
                    LineView { command: ls.last().command.drop_last() + text, quiet: ls.last().quiet },
                )
            &&& !(ls.len() > 0 && ls.last().command.len() > 0 && ls.last().command.last() == '\\') ==>
                r->Ok_0.recipes.last().lines == ls.push(
                    if text[0] == '@' {
                        LineView { command: text.drop_first(), quiet: true }
                    } else {
                        LineView { command: text, quiet: false }
                    },
                )
        }),
{
    let l = strip_cr(raw);
    lemma_skip_blanks_rest(l);
}

/// The first `&&` among the words, where there is one.
proof fn lemma_first_and_and(ws: Seq<Seq<char>>) -> (a: int)
    requires
        exists|i: int| 0 <= i < ws.len() && ws[i] == "&&"@,
    ensures
        0 <= a < ws.len(),
        ws[a] == "&&"@,
        forall|j: int| 0 <= j < a ==> ws[j] != "&&"@,
    decreases ws.len(),
{
    let init = ws.drop_last();
    if exists|i: int| 0 <= i < init.len() && init[i] == "&&"@ {
        let a = lemma_first_and_and(init);
        assert forall|j: int| 0 <= j < a implies ws[j] != "&&"@ by {
            assert(ws[j] == init[j]);
        }
        a
    } else {
        let i = choose|i: int| 0 <= i < ws.len() && ws[i] == "&&"@;
        if i < ws.len() - 1 {
            assert(init[i] == ws[i]);
        }
        assert forall|j: int| 0 <= j < ws.len() - 1 implies ws[j] != "&&"@ by {
            assert(ws[j] == init[j]);
        }
        ws.len() - 1
    }
}

/// The characters of a text that are neither spaces nor tabs, in order.
pub open spec fn non_blanks(s: Seq<char>) -> Seq<char>
    decreases s.len(),
{
    if s.len() == 0 {
        Seq::empty()
    } else if is_blank_char(s.last()) {
        non_blanks(s.drop_last())
    } else {
        non_blanks(s.drop_last()).push(s.last())
    }
}

/// A word: at least one character, none of them a space or tab.
pub open spec fn is_word(w: Seq<char>) -> bool {
    w.len() > 0 && forall|k: int| 0 <= k < w.len() ==> !is_blank_char(#[trigger] w[k])
}

proof fn lemma_words_from_split(s: Seq<char>)
    ensures
        ({
            let (done, start) = words_from(s);
            &&& forall|j: int| 0 <= j < done.len() ==> is_word(#[trigger] done[j])
            &&& match start {
                Some(st) => 0 <= st < s.len() && is_word(s.subrange(st, s.len() as int))
                    && done.flatten_alt() + s.subrange(st, s.len() as int) == non_blanks(s),
                None => done.flatten_alt() == non_blanks(s),
            }
        }),
    decreases s.len(),
{
    if s.len() > 0 {
        let p = s.drop_last();
        lemma_words_from_split(p);
        let (d0, st0) = words_from(p);
        let i = s.len() - 1;
        let c = s.last();
        if is_blank_char(c) {
            match st0 {
                Some(st) => {
                    let w = s.subrange(st, i);
                    assert(w =~= p.subrange(st, p.len() as int));
                    let d = d0.push(w);
                    assert(d.drop_last() =~= d0);
                    assert(forall|j: int| 0 <= j < d0.len() ==> d[j] == d0[j]);
                },
                None => {},
            }
        } else {
            match st0 {
                Some(st) => {
                    let w0 = p.subrange(st, p.len() as int);
                    assert(s.subrange(st, s.len() as int) =~= w0.push(c));
                    assert(d0.flatten_alt() + w0.push(c) =~= (d0.flatten_alt() + w0).push(c));
                },
                None => {
                    assert(s.subrange(i, s.len() as int) =~= seq![c]);
                    assert(d0.flatten_alt() + seq![c] =~= d0.flatten_alt().push(c));
                },
            }
        }
    }
}

/// The words of a text are its runs of characters other than spaces and tabs:
/// each is a word, and together, in order, they are all the text's characters
/// but its spaces and tabs.
pub proof fn lemma_words_split_at_blanks(s: Seq<char>)
    ensures
        forall|j: int| 0 <= j < words(s).len() ==> is_word(#[trigger] words(s)[j]),
        words(s).flatten_alt() == non_blanks(s),
{
    lemma_words_from_split(s);
    let (done, start) = words_from(s);
    match start {
        Some(st) => {
            let d = done.push(s.subrange(st, s.len() as int));
            assert(d.drop_last() =~= done);
            assert(forall|j: int| 0 <= j < done.len() ==> d[j] == done[j]);
        },
        None => {},
    }
}

/// A recipe header names the recipe by the text before its first colon, and its
/// dependencies are the words after that colon, in the order written: all of
/// them where no word is `&&`; else those before the first `&&` run before the
/// recipe's lines and those after it run after them.
pub proof fn lemma_header_dependencies(l: Seq<char>)
    ensures
        header_of(l) matches Some((name, prior, subsequent)) ==> ({
            let k = index_of_char(l, ':')->0;
            let ws = words(l.skip(k + 1));
            &&& 0 <= k < l.len()
            &&& l[k] == ':'
            &&& forall|j: int| 0 <= j < k ==> l[j] != ':'
            &&& name == l.take(k)
            &&& forall|j: int| 0 <= j < prior.len() ==> #[trigger] prior[j] != "&&"@
            &&& (exists|i: int| 0 <= i < ws.len() && #[trigger] ws[i] == "&&"@) ==> ws == prior.push("&&"@) + subsequent
            &&& (forall|i: int| 0 <= i < ws.len() ==> #[trigger] ws[i] != "&&"@) ==> ws == prior && subsequent.len() == 0
        }),
{
    if header_of(l) is Some {
        let k = index_of_char(l, ':')->0;
        let ws = words(l.skip(k + 1));
        match and_and_index(ws) {
            None => {},
            Some(a) => {
                let a0 = lemma_first_and_and(ws);
                assert(0 <= a < ws.len() && ws[a] == "&&"@ && forall|j: int| 0 <= j < a ==> ws[j] != "&&"@);
                assert(ws.take(a).push("&&"@) + ws.skip(a + 1) =~= ws);
            },
        }
    }
}

/// In a checked justfile every recipe is defined once, every dependency is a
/// recipe, and every hook targets a recipe.
pub proof fn lemma_checked_justfile(rs: Seq<RecipeView>)
    requires
        first_error(rs, rs.len()) is None,
    ensures
        forall|a: int, b: int| 0 <= a < b < rs.len() ==> rs[a].name != rs[b].name,
        forall|i: int, j: int| 0 <= i < rs.len() && 0 <= j < rs[i].prior.len() ==> has_recipe(rs, #[trigger] rs[i].prior[j]),
        forall|i: int, j: int| 0 <= i < rs.len() && 0 <= j < rs[i].subsequent.len() ==> has_recipe(rs, #[trigger] rs[i].subsequent[j]),
        forall|i: int, j: int| 0 <= i < rs.len() && 0 <= j < rs[i].hooks.len() ==> has_recipe(rs, #[trigger] rs[i].hooks[j].target),
{
    assert forall|i: int| 0 <= i < rs.len() implies #[trigger] recipe_error(rs, i) is None by {
        if recipe_error(rs, i) is Some {
            if first_error(rs, i as nat) is Some {
                lemma_first_error_prefix(rs, i as nat);
            } else {
                assert(first_error(rs, (i + 1) as nat) is Some);
                lemma_first_error_prefix(rs, (i + 1) as nat);
            }
        }
    }
    assert forall|a: int, b: int| 0 <= a < b < rs.len() implies rs[a].name != rs[b].name by {
        assert(recipe_error(rs, b) is None);
    }
    assert forall|i: int, j: int| 0 <= i < rs.len() && 0 <= j < rs[i].prior.len() implies has_recipe(rs, #[trigger] rs[i].prior[j]) by {
        assert(recipe_error(rs, i) is None);
        let ds = rs[i].prior + rs[i].subsequent;
        assert(ds[j] == rs[i].prior[j]);
        lemma_no_missing(rs, ds, j);
    }
    assert forall|i: int, j: int| 0 <= i < rs.len() && 0 <= j < rs[i].subsequent.len() implies has_recipe(rs, #[trigger] rs[i].subsequent[j]) by {
        assert(recipe_error(rs, i) is None);
        let ds = rs[i].prior + rs[i].subsequent;
        assert(ds[rs[i].prior.len() + j] == rs[i].subsequent[j]);
        lemma_no_missing(rs, ds, rs[i].prior.len() + j);
    }
    assert forall|i: int, j: int| 0 <= i < rs.len() && 0 <= j < rs[i].hooks.len() implies has_recipe(rs, #[trigger] rs[i].hooks[j].target) by {
        assert(recipe_error(rs, i) is None);
        lemma_no_missing_target(rs, rs[i].hooks, j);
    }
}

} // verus!
