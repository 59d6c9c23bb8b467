//! Formatting source text: names of built-ins and their ASCII spellings are
//! replaced by glyphs, and the `=` of a definition by the binding arrow.
//!
//! Formatting goes over the text twice. The first pass replaces the names. A
//! name is a word of two or more lower-case letters that is the name of a
//! built-in, or the beginning of the name of exactly one built-in; it is
//! replaced where that built-in has a glyph. A word that is the name of none
//! and begins the names of several, with a glyph or without, is an error. The
//! second
//! pass replaces the ASCII spellings and, where a line begins with a word
//! followed by `=`, that `=`. Quoted literals and comments pass through both
//! unchanged; a quoted literal that is not closed on its line is an error.

use vstd::prelude::*;
use crate::seqs::lemma_filter_push;
use crate::lex::{
    is_letter, is_quote, lemma_line_len, lemma_skip_skip, lemma_word_len, letter, lexeme, line_end,
    line_len, quote_end, quote_len, word_end, word_len, Lexeme,
};
use crate::code::balance;
use crate::names::is_upper;
use crate::primitive::Primitive;
use crate::text::{chars_of, string_of};
use crate::token::{tokenize, tokens_of, TokenFault};

verus! {

/// Why a text cannot be formatted. `rest` counts the characters from the
/// beginning of the offending word or literal to the end of the text.
pub enum Fault {
    /// A word begins the names of several built-ins.
    Ambiguous { rest: nat },
    /// A quoted literal is not closed on its line.
    Incomplete { rest: nat },
    /// When everything has been replaced, the single quote at the place
    /// `at` of the formatted text does not begin a character.
    Misquoted { at: nat },
    /// When everything has been replaced, the character at the place `at`
    /// of the formatted text means nothing.
    Unknown { at: nat },
    /// When everything has been replaced, the bracket at the place `at` of
    /// the formatted text has no partner.
    Unbalanced { at: nat },
}

/// What becomes of a word.
#[derive(Clone, Copy, Debug, PartialEq, Eq, Structural)]
pub enum Resolution {
    /// The word stays as it is.
    Keep,
    /// The word is the name of the built-in with this glyph.
    Glyph(char),
    /// The word begins the names of several built-ins.
    Ambiguous,
}

/// `text` begins with `word`.
pub open spec fn begins_with(text: Seq<char>, word: Seq<char>) -> bool {
    word.len() <= text.len() && text.take(word.len() as int) == word
}

/// `p` has the name `word`.
pub open spec fn is_named(p: Primitive, word: Seq<char>) -> bool {
    p.name_text() == Some(word)
}

/// `p` has a name that begins with `word`.
pub open spec fn is_candidate(p: Primitive, word: Seq<char>) -> bool {
    p.name_text() is Some && begins_with(p.name_text().unwrap(), word)
}

/// `word` holds an upper-case letter.
pub open spec fn has_upper(word: Seq<char>) -> bool {
    exists|i: int| 0 <= i < word.len() && is_upper(#[trigger] word[i])
}

/// The test for a built-in with the name `word`.
pub open spec fn named_test(word: Seq<char>) -> spec_fn(Primitive) -> bool {
    |p: Primitive| is_named(p, word)
}

/// The test for a built-in whose name begins with `word`.
pub open spec fn candidate_test(word: Seq<char>) -> spec_fn(Primitive) -> bool {
    |p: Primitive| is_candidate(p, word)
}

/// The built-ins with the name `word`, in the order of the table.
pub open spec fn named(word: Seq<char>) -> Seq<Primitive> {
    Primitive::table().filter(named_test(word))
}

/// The built-ins whose name begins with `word`, with a glyph or without, in
/// the order of the table.
pub open spec fn candidates(word: Seq<char>) -> Seq<Primitive> {
    Primitive::table().filter(candidate_test(word))
}

/// What becomes of a word that stands for the built-in `p`: the glyph of
/// `p`, and where it has none the word itself.
pub open spec fn written(p: Primitive) -> Resolution {
    match p.glyph() {
        Some(g) => Resolution::Glyph(g),
        None => Resolution::Keep,
    }
}

/// What becomes of the word `word`.
///
/// A single letter and a word with an upper-case letter stay: the first is
/// the argument of a dfn, the second a binding. Else the word stands for the
/// built-in that it is the name of, or for the only built-in whose name it
/// begins; it stays where it begins no name; and it is ambiguous where it is
/// no name and begins several, whether or not they have glyphs.
pub open spec fn resolve(word: Seq<char>) -> Resolution {
    if word.len() < 2 || has_upper(word) {
        Resolution::Keep
    } else if named(word).len() > 0 {
        written(named(word)[0])
    } else if candidates(word).len() == 0 {
        Resolution::Keep
    } else if candidates(word).len() == 1 {
        written(candidates(word)[0])
    } else {
        Resolution::Ambiguous
    }
}

/// `head` before the text `tail`, where there is one.
pub open spec fn prepend(head: Seq<char>, tail: Result<Seq<char>, Fault>) -> Result<
    Seq<char>,
    Fault,
> {
    match tail {
        Ok(t) => Ok(head + t),
        Err(f) => Err(f),
    }
}

/// The first pass: `s` with the names of built-ins replaced by their glyphs.
pub open spec fn name_glyphs(s: Seq<char>) -> Result<Seq<char>, Fault>
    decreases s.len(),
{
    if s.len() == 0 {
        Ok(Seq::empty())
    } else {
        match lexeme(s) {
            Lexeme::Word(k) => if 0 < k <= s.len() {
                match resolve(s.take(k as int)) {
                    Resolution::Keep => prepend(s.take(k as int), name_glyphs(s.skip(k as int))),
                    Resolution::Glyph(g) => prepend(seq![g], name_glyphs(s.skip(k as int))),
                    Resolution::Ambiguous => Err(Fault::Ambiguous { rest: s.len() }),
                }
            } else {
                Ok(Seq::empty())
            },
            Lexeme::Literal(k) => if 0 < k <= s.len() {
                prepend(s.take(k as int), name_glyphs(s.skip(k as int)))
            } else {
                Ok(Seq::empty())
            },
            Lexeme::Broken => Err(Fault::Incomplete { rest: s.len() }),
            Lexeme::Symbol => prepend(seq![s[0]], name_glyphs(s.skip(1))),
        }
    }
}

/// Where the second pass stands in a line.
#[derive(Clone, Copy, Debug, PartialEq, Eq, Structural)]
pub enum LineState {
    /// Nothing but blanks so far.
    Start,
    /// In the word that the line begins with.
    Name,
    /// Behind the word that the line begins with, with nothing but blanks since.
    Named,
    /// Anywhere else.
    Rest,
}

/// A space or a tab.
pub open spec fn is_blank(c: char) -> bool {
    c == ' ' || c == '\t'
}

/// The glyph that is typed as `c` followed by `=`.
pub open spec fn digraph(c: char) -> Option<char> {
    if c == '!' {
        Some('≠')
    } else if c == '<' {
        Some('≤')
    } else if c == '>' {
        Some('≥')
    } else {
        None
    }
}

/// The glyph that is typed as `c`: the signs of multiplication and division,
/// and the sign of a negative number.
pub open spec fn monograph(c: char) -> Option<char> {
    if c == '*' {
        Some('×')
    } else if c == '%' {
        Some('÷')
    } else if c == '`' {
        Some('¯')
    } else {
        None
    }
}

/// Where the second pass stands behind a letter.
pub open spec fn after_letter(st: LineState) -> LineState {
    match st {
        LineState::Start | LineState::Name => LineState::Name,
        _ => LineState::Rest,
    }
}

/// Where the second pass stands behind a blank.
pub open spec fn after_blank(st: LineState) -> LineState {
    match st {
        LineState::Start => LineState::Start,
        LineState::Name | LineState::Named => LineState::Named,
        LineState::Rest => LineState::Rest,
    }
}

/// Whether an `=` read in the state `st` defines the word before it.
pub open spec fn defines(st: LineState) -> bool {
    st == LineState::Name || st == LineState::Named
}

/// The second pass: `s`, read from the state `st` on, with the ASCII
/// spellings replaced by glyphs and the `=` of a definition by `←`.
pub open spec fn typed_glyphs(s: Seq<char>, st: LineState) -> Seq<char>
    decreases s.len(),
{
    if s.len() == 0 {
        Seq::empty()
    } else {
        let c = s[0];
        if c == '\n' {
            seq![c] + typed_glyphs(s.skip(1), LineState::Start)
        } else if is_letter(c) {
            seq![c] + typed_glyphs(s.skip(1), after_letter(st))
        } else if is_blank(c) {
            seq![c] + typed_glyphs(s.skip(1), after_blank(st))
        } else if c == '=' && defines(st) {
            seq!['←'] + typed_glyphs(s.skip(1), LineState::Rest)
        } else if is_quote(c) {
            match quote_len(s, c, 1) {
                Some(k) => if 0 < k <= s.len() {
                    s.take(k as int) + typed_glyphs(s.skip(k as int), LineState::Rest)
                } else {
                    s
                },
                None => s,
            }
        } else if c == '#' {
            let k = line_len(s);
            if 0 < k <= s.len() {
                s.take(k as int) + typed_glyphs(s.skip(k as int), LineState::Rest)
            } else {
                s
            }
        } else if digraph(c) is Some && s.len() > 1 && s[1] == '=' {
            seq![digraph(c).unwrap()] + typed_glyphs(s.skip(2), LineState::Rest)
        } else if monograph(c) is Some {
            seq![monograph(c).unwrap()] + typed_glyphs(s.skip(1), LineState::Rest)
        } else {
            seq![c] + typed_glyphs(s.skip(1), LineState::Rest)
        }
    }
}

/// The text with the names and the ASCII spellings replaced, or why it has none.
pub open spec fn glyphs(source: Seq<char>) -> Result<Seq<char>, Fault> {
    match name_glyphs(source) {
        Ok(named) => Ok(typed_glyphs(named, LineState::Start)),
        Err(f) => Err(f),
    }
}

/// The fault that keeps the text `text`, in which everything has been
/// replaced, from being code: a single quote that does not begin a
/// character, a character that means nothing, or a bracket without its
/// partner.
pub open spec fn misread(text: Seq<char>) -> Option<Fault> {
    match tokens_of(text) {
        Ok(tokens) => match balance(tokens, 0, Seq::empty()) {
            Ok(_) => None,
            Err(i) => Some(Fault::Unbalanced { at: tokens[i as int].start as nat }),
        },
        Err(TokenFault::Incomplete(at)) => Some(Fault::Misquoted { at }),
        Err(TokenFault::Unknown(at)) => Some(Fault::Unknown { at }),
    }
}

/// The formatted form of `source`, or why it has none.
pub open spec fn format_text(source: Seq<char>) -> Result<Seq<char>, Fault> {
    match glyphs(source) {
        Ok(text) => match misread(text) {
            Some(f) => Err(f),
            None => Ok(text),
        },
        Err(f) => Err(f),
    }
}

/// Why a text could not be formatted. A caller that formats a file while it
/// is being edited may try again a little later.
#[derive(Clone, Debug, PartialEq, Eq)]
pub enum FormatError {
    /// The word `name`, which begins at the character number `position`,
    /// begins the names of several built-ins.
    Ambiguous { name: String, position: usize },
    /// The quoted literal that begins at the character number `position` is
    /// not closed on its line.
    Incomplete { position: usize },
    /// The character number `position` means nothing.
    Unknown { position: usize },
    /// The bracket at the character number `position` has no partner.
    Unbalanced { position: usize },
}

/// The error `e` reports the fault `f` of the text `source`. A literal that
/// is not closed and a word that begins several names are reported by their
/// place in `source`, a character that means nothing and a bracket without
/// its partner by their place in the formatted text.
pub open spec fn reports(e: FormatError, f: Fault, source: Seq<char>) -> bool {
    match (e, f) {
        (FormatError::Ambiguous { name, position }, Fault::Ambiguous { rest }) => {
            &&& position + rest == source.len()
            &&& name@ == source.skip(position as int).take(
                word_len(source.skip(position as int)) as int,
            )
        },
        (FormatError::Incomplete { position }, Fault::Incomplete { rest }) => position + rest
            == source.len(),
        (FormatError::Incomplete { position }, Fault::Misquoted { at }) => position == at,
        (FormatError::Unknown { position }, Fault::Unknown { at }) => position == at,
        (FormatError::Unbalanced { position }, Fault::Unbalanced { at }) => position == at,
        _ => false,
    }
}

fn push_range(out: &mut Vec<char>, s: &Vec<char>, i: usize, j: usize)
    requires
        i <= j <= s@.len(),
    ensures
        final(out)@ == old(out)@ + s@.subrange(i as int, j as int),
{
    let mut k: usize = i;
    assert(out@ =~= old(out)@ + s@.subrange(i as int, i as int));
    while k < j
        invariant
            i <= k <= j <= s@.len(),
            out@ == old(out)@ + s@.subrange(i as int, k as int),
        decreases j - k,
    {
        out.push(s[k]);
        k = k + 1;
        assert(out@ =~= old(out)@ + s@.subrange(i as int, k as int));
    }
}

fn begins(name: &Vec<char>, s: &Vec<char>, i: usize, j: usize) -> (r: bool)
    requires
        i <= j <= s@.len(),
    ensures
        r == begins_with(name@, s@.subrange(i as int, j as int)),
{
    let ghost word = s@.subrange(i as int, j as int);
    if j - i > name.len() {
        return false;
    }
    let mut k: usize = 0;
    while k < j - i
        invariant
            i <= j <= s@.len(),
            k <= j - i <= name@.len(),
            word == s@.subrange(i as int, j as int),
            forall|m: int| 0 <= m < k ==> name@[m] == word[m],
        decreases j - i - k,
    {
        if name[k] != s[i + k] {
            assert(name@.take(word.len() as int)[k as int] != word[k as int]);
            return false;
        }
        k = k + 1;
    }
    assert(name@.take(word.len() as int) =~= word);
    true
}

fn any_upper(s: &Vec<char>, i: usize, j: usize) -> (r: bool)
    requires
        i <= j <= s@.len(),
    ensures
        r == has_upper(s@.subrange(i as int, j as int)),
{
    let ghost word = s@.subrange(i as int, j as int);
    let mut k: usize = i;
    while k < j
        invariant
            i <= k <= j <= s@.len(),
            word == s@.subrange(i as int, j as int),
            forall|m: int| 0 <= m < k - i ==> !is_upper(#[trigger] word[m]),
        decreases j - k,
    {
        let c = s[k];
        if 'A' <= c && c <= 'Z' {
            assert(is_upper(word[k - i]));
            return true;
        }
        k = k + 1;
    }
    false
}

/// What becomes of a word that stands for `p`.
fn glyph_or_word(p: Primitive) -> (r: Resolution)
    ensures
        r == written(p),
{
    match p.unicode() {
        Some(g) => Resolution::Glyph(g),
        None => Resolution::Keep,
    }
}

/// What becomes of the word that stands from `i` to `j` in `s`.
fn resolve_word(s: &Vec<char>, i: usize, j: usize) -> (r: Resolution)
    requires
        i <= j <= s@.len(),
    ensures
        r == resolve(s@.subrange(i as int, j as int)),
{
    let ghost word = s@.subrange(i as int, j as int);
    if j - i < 2 || any_upper(s, i, j) {
        return Resolution::Keep;
    }
    let table = Primitive::all();
    let mut first_named: Option<Primitive> = None;
    let mut first_candidate: Option<Primitive> = None;
    let mut count: usize = 0;
    let mut k: usize = 0;
    proof {
        assert(table@.take(0) =~= Seq::<Primitive>::empty());
        reveal(Seq::filter);
    }
    while k < table.len()
        invariant
            i <= j <= s@.len(),
            k <= table.len(),
            table@ == Primitive::table(),
            word == s@.subrange(i as int, j as int),
            count <= k,
            ({
                let found = table@.take(k as int).filter(named_test(word));
                first_named == if found.len() > 0 {
                    Some(found[0])
                } else {
                    None
                }
            }),
            ({
                let found = table@.take(k as int).filter(candidate_test(word));
                &&& count == found.len()
                &&& first_candidate == if found.len() > 0 {
                    Some(found[0])
                } else {
                    None
                }
            }),
        decreases table.len() - k,
    {
        let p = table[k];
        proof {
            assert(table@.take(k + 1) =~= table@.take(k as int).push(p));
            lemma_filter_push(table@.take(k as int), p, named_test(word));
            lemma_filter_push(table@.take(k as int), p, candidate_test(word));
        }
        match p.name() {
            Some(n) => {
                let name = chars_of(n);
                if begins(&name, s, i, j) {
                    if first_candidate.is_none() {
                        first_candidate = Some(p);
                    }
                    count = count + 1;
                    if name.len() == j - i {
                        assert(name@.take(word.len() as int) =~= name@);
                        if first_named.is_none() {
                            first_named = Some(p);
                        }
                    } else {
                        assert(name@ != word);
                    }
                } else {
                    assert(name@ != word) by {
                        if name@ == word {
                            assert(name@.take(word.len() as int) =~= word);
                        }
                    }
                }
            },
            None => {},
        }
        k = k + 1;
    }
    assert(table@.take(k as int) =~= table@);
    match first_named {
        Some(p) => glyph_or_word(p),
        None => if count == 0 {
            Resolution::Keep
        } else if count == 1 {
            match first_candidate {
                Some(p) => glyph_or_word(p),
                None => Resolution::Keep,
            }
        } else {
            Resolution::Ambiguous
        },
    }
}

/// The first pass.
fn replace_names(s: &Vec<char>) -> (r: Result<Vec<char>, FormatError>)
    ensures
        match r {
            Ok(out) => name_glyphs(s@) == Ok::<Seq<char>, Fault>(out@),
            Err(e) => name_glyphs(s@) is Err && reports(e, name_glyphs(s@)->Err_0, s@),
        },
{
    let n = s.len();
    let mut out: Vec<char> = Vec::new();
    let mut i: usize = 0;
    assert(s@.skip(0) =~= s@);
    assert(Seq::<char>::empty() + name_glyphs(s@)->Ok_0 =~= name_glyphs(s@)->Ok_0);
    while i < n
        invariant
            i <= n,
            n == s@.len(),
            name_glyphs(s@) == prepend(out@, name_glyphs(s@.skip(i as int))),
        decreases n - i,
    {
        let c = s[i];
        let ghost rest = s@.skip(i as int);
        let ghost before = out@;
        assert(rest[0] == c);
        if letter(c) {
            let j = word_end(s, i);
            proof {
                lemma_word_len(rest);
                lemma_skip_skip(s@, i as int, j - i);
            }
            match resolve_word(s, i, j) {
                Resolution::Keep => {
                    push_range(&mut out, s, i, j);
                },
                Resolution::Glyph(g) => {
                    out.push(g);
                    assert(out@ =~= before + seq![g]);
                },
                Resolution::Ambiguous => {
                    let mut word: Vec<char> = Vec::new();
                    push_range(&mut word, s, i, j);
                    assert(word@ =~= s@.subrange(i as int, j as int));
                    return Err(FormatError::Ambiguous { name: string_of(&word), position: i });
                },
            }
            proof {
                let tail = name_glyphs(s@.skip(j as int));
                if tail is Ok {
                    assert(before + (out@.skip(before.len() as int) + tail->Ok_0) =~= out@
                        + tail->Ok_0);
                    assert(out@.skip(before.len() as int) =~= if resolve(rest.take(j - i))
                        is Keep {
                        rest.take(j - i)
                    } else {
                        seq![resolve(rest.take(j - i))->Glyph_0]
                    });
                }
            }
            i = j;
        } else if c == '"' || c == '\'' {
            match quote_end(s, i) {
                Some(j) => {
                    proof {
                        lemma_skip_skip(s@, i as int, j - i);
                    }
                    push_range(&mut out, s, i, j);
                    proof {
                        let tail = name_glyphs(s@.skip(j as int));
                        if tail is Ok {
                            assert(before + (rest.take(j - i) + tail->Ok_0) =~= out@ + tail->Ok_0);
                        }
                    }
                    i = j;
                },
                None => {
                    return Err(FormatError::Incomplete { position: i });
                },
            }
        } else if c == '#' {
            let j = line_end(s, i);
            proof {
                lemma_line_len(rest);
                lemma_skip_skip(s@, i as int, j - i);
            }
            push_range(&mut out, s, i, j);
            proof {
                let tail = name_glyphs(s@.skip(j as int));
                if tail is Ok {
                    assert(before + (rest.take(j - i) + tail->Ok_0) =~= out@ + tail->Ok_0);
                }
            }
            i = j;
        } else {
            proof {
                lemma_skip_skip(s@, i as int, 1);
            }
            out.push(c);
            proof {
                let tail = name_glyphs(s@.skip(i + 1));
                if tail is Ok {
                    assert(before + (seq![c] + tail->Ok_0) =~= out@ + tail->Ok_0);
                }
            }
            i = i + 1;
        }
    }
    assert(out@ + Seq::<char>::empty() =~= out@);
    Ok(out)
}

/// The second pass.
fn replace_symbols(s: &Vec<char>) -> (r: Vec<char>)
    ensures
        r@ == typed_glyphs(s@, LineState::Start),
{
    let n = s.len();
    let mut out: Vec<char> = Vec::new();
    let mut st = LineState::Start;
    let mut i: usize = 0;
    assert(s@.skip(0) =~= s@);
    assert(Seq::<char>::empty() + typed_glyphs(s@, st) =~= typed_glyphs(s@, st));
    while i < n
        invariant
            i <= n,
            n == s@.len(),
            typed_glyphs(s@, LineState::Start) == out@ + typed_glyphs(s@.skip(i as int), st),
        decreases n - i,
    {
        let c = s[i];
        let ghost rest = s@.skip(i as int);
        let ghost before = out@;
        assert(rest[0] == c);
        let defining = match st {
            LineState::Name | LineState::Named => true,
            _ => false,
        };
        if c == '\n' || letter(c) || c == ' ' || c == '\t' || (c == '=' && defining) {
            let next = if c == '\n' {
                LineState::Start
            } else if letter(c) {
                match st {
                    LineState::Start | LineState::Name => LineState::Name,
                    _ => LineState::Rest,
                }
            } else if c == ' ' || c == '\t' {
                match st {
                    LineState::Start => LineState::Start,
                    LineState::Name | LineState::Named => LineState::Named,
                    LineState::Rest => LineState::Rest,
                }
            } else {
                LineState::Rest
            };
            let d = if c == '=' && !letter(c) && c != '\n' {
                '←'
            } else {
                c
            };
            out.push(d);
            proof {
                lemma_skip_skip(s@, i as int, 1);
                let tail = typed_glyphs(s@.skip(i + 1), next);
                assert(before + (seq![d] + tail) =~= out@ + tail);
            }
            st = next;
            i = i + 1;
        } else if c == '"' || c == '\'' {
            match quote_end(s, i) {
                Some(j) => {
                    push_range(&mut out, s, i, j);
                    proof {
                        lemma_skip_skip(s@, i as int, j - i);
                        let tail = typed_glyphs(s@.skip(j as int), LineState::Rest);
                        assert(before + (rest.take(j - i) + tail) =~= out@ + tail);
                    }
                    st = LineState::Rest;
                    i = j;
                },
                None => {
                    push_range(&mut out, s, i, n);
                    proof {
                        assert(s@.subrange(i as int, n as int) =~= rest);
                        assert(s@.skip(n as int).len() == 0);
                        assert(out@ + typed_glyphs(s@.skip(n as int), st) =~= before + rest);
                    }
                    i = n;
                },
            }
        } else if c == '#' {
            let j = line_end(s, i);
            push_range(&mut out, s, i, j);
            proof {
                lemma_line_len(rest);
                lemma_skip_skip(s@, i as int, j - i);
                let tail = typed_glyphs(s@.skip(j as int), LineState::Rest);
                assert(before + (rest.take(j - i) + tail) =~= out@ + tail);
            }
            st = LineState::Rest;
            i = j;
        } else if (c == '!' || c == '<' || c == '>') && i + 1 < n && s[i + 1] == '=' {
            let g = if c == '!' {
                '≠'
            } else if c == '<' {
                '≤'
            } else {
                '≥'
            };
            out.push(g);
            proof {
                assert(rest[1] == s@[i + 1]);
                lemma_skip_skip(s@, i as int, 2);
                let tail = typed_glyphs(s@.skip(i + 2), LineState::Rest);
                assert(before + (seq![g] + tail) =~= out@ + tail);
            }
            st = LineState::Rest;
            i = i + 2;
        } else {
            let g = if c == '*' {
                '×'
            } else if c == '%' {
                '÷'
            } else if c == '`' {
                '¯'
            } else {
                c
            };
            out.push(g);
            proof {
                if i + 1 < n {
                    assert(rest[1] == s@[i + 1]);
                }
                lemma_skip_skip(s@, i as int, 1);
                let tail = typed_glyphs(s@.skip(i + 1), LineState::Rest);
                assert(before + (seq![g] + tail) =~= out@ + tail);
            }
            st = LineState::Rest;
            i = i + 1;
        }
    }
    assert(out@ + Seq::<char>::empty() =~= out@);
    out
}

/// Formats `source`: the names and ASCII spellings of built-ins become
/// glyphs, and the `=` of a definition becomes `←`.
///
/// Fails where a word begins the names of several built-ins, and where a
/// quoted literal is not closed on its line; the error names the first such
/// place. Fails also where the text, with everything replaced, holds a
/// character that means nothing or a bracket without its partner.
/// Formatting a formatted text hands it back unchanged.
pub fn format(source: &str) -> (r: Result<String, FormatError>)
    ensures
        match r {
            Ok(text) => format_text(source@) == Ok::<Seq<char>, Fault>(text@),
            Err(e) => format_text(source@) is Err && reports(
                e,
                format_text(source@)->Err_0,
                source@,
            ),
        },
{
    let s = chars_of(source);
    match replace_names(&s) {
        Ok(named) => {
            let out = replace_symbols(&named);
            match check(&out) {
                Some(e) => Err(e),
                None => Ok(string_of(&out)),
            }
        },
        Err(e) => Err(e),
    }
}

/// Looks for what keeps a text in which everything has been replaced from
/// being code.
fn check(text: &Vec<char>) -> (r: Option<FormatError>)
    ensures
        match r {
            Some(e) => misread(text@) is Some && reports(e, misread(text@).unwrap(), text@),
            None => misread(text@) is None,
        },
{
    let tokens = match tokenize(text) {
        Ok(tokens) => tokens,
        Err(e) => {
            return Some(e);
        },
    };
    match crate::code::pair(&tokens) {
        Ok(_) => None,
        Err(i) => Some(FormatError::Unbalanced { position: tokens[i].start }),
    }
}

} // verus!
