//! Tokens: the words that the machine reads.
//!
//! The tokens of a text are read off from left to right. Blanks and comments
//! separate tokens and are no tokens themselves. Every token knows the place
//! in the text that it was read from.

use vstd::prelude::*;
use crate::seqs::{lemma_filter_push, lemma_first_kept};
use crate::format::FormatError;
use crate::lex::{
    is_letter, lemma_line_len, lemma_skip_skip, lemma_word_len, letter, line_end, line_len,
    quote_end, quote_len, word_end, word_len,
};
use crate::primitive::Primitive;
use crate::text::chars_of;

verus! {

/// The three kinds of bracket.
#[derive(Clone, Copy, Debug, PartialEq, Eq, Structural)]
pub enum Bracket {
    /// `(` and `)`, around a function.
    Round,
    /// `[` and `]`, around the rows of an array.
    Square,
    /// `{` and `}`, around a dfn.
    Curly,
}

/// What a token is.
#[derive(Clone, Copy, Debug, PartialEq, Eq, Structural)]
pub enum Kind {
    /// A number, as it is written.
    Number,
    /// A character between single quotes.
    Character(char),
    /// A string between double quotes.
    Text,
    /// A built-in.
    Primitive(Primitive),
    /// A word, or a single character that is neither an ASCII character
    /// nor the glyph of a built-in.
    Name,
    Open(Bracket),
    Close(Bracket),
    /// The underscore between the elements of a strand.
    Strand,
    /// The arrow of a definition.
    Arrow,
    /// The end of a line.
    Line,
    /// The marker that begins and ends a scope.
    Scope,
}

/// A token, with the places of its first character and behind its last one.
#[derive(Clone, Copy, Debug, PartialEq, Eq, Structural)]
pub struct Token {
    pub kind: Kind,
    pub start: usize,
    pub end: usize,
}

/// What a text begins with, as the tokenizer sees it.
pub enum Lexed {
    /// This many characters that are no token.
    Skip(nat),
    /// A token of this kind and this many characters.
    Token(Kind, nat),
    /// A quoted literal that is not closed, or not a single character
    /// between single quotes.
    Incomplete,
    /// A character that means nothing.
    Unknown,
}

/// A decimal digit.
pub open spec fn is_digit(c: char) -> bool {
    '0' <= c && c <= '9'
}

/// A number with a glyph of its own.
pub open spec fn is_constant(c: char) -> bool {
    c == 'π' || c == '∞'
}

/// A character that separates tokens within a line.
pub open spec fn is_space(c: char) -> bool {
    c == ' ' || c == '\t' || c == '\r'
}

/// An ASCII character.
pub open spec fn is_ascii(c: char) -> bool {
    (c as u32) < 128
}

/// The number of digits that `s` begins with.
pub open spec fn digits_len(s: Seq<char>) -> nat
    decreases s.len(),
{
    if s.len() > 0 && is_digit(s[0]) {
        1 + digits_len(s.drop_first())
    } else {
        0
    }
}

/// The length of the number that `s` begins with, without its sign: a
/// constant, or digits with or without a fraction. 0 where `s` begins with none.
pub open spec fn unsigned_len(s: Seq<char>) -> nat {
    if s.len() > 0 && is_constant(s[0]) {
        1
    } else {
        let whole = digits_len(s);
        if whole > 0 && whole + 1 < s.len() && s[whole as int] == '.' && is_digit(
            s[whole as int + 1],
        ) {
            whole + 1 + digits_len(s.skip(whole as int + 1))
        } else {
            whole
        }
    }
}

/// The length of the number that `s` begins with, its sign `¯` included.
/// 0 where `s` begins with no number.
pub open spec fn number_len(s: Seq<char>) -> nat {
    if s.len() > 0 && s[0] == '¯' {
        if unsigned_len(s.skip(1)) > 0 {
            1 + unsigned_len(s.skip(1))
        } else {
            0
        }
    } else {
        unsigned_len(s)
    }
}

/// The character that a backslash and `c` stand for in a quoted literal.
pub open spec fn escaped(c: char) -> char {
    if c == 'n' {
        '\n'
    } else if c == 't' {
        '\t'
    } else if c == 'r' {
        '\r'
    } else if c == '0' {
        '\0'
    } else {
        c
    }
}

/// The characters that the contents `s` of a quoted literal stand for.
pub open spec fn unescaped(s: Seq<char>) -> Seq<char>
    decreases s.len(),
{
    if s.len() == 0 {
        s
    } else if s[0] == '\\' && s.len() > 1 {
        seq![escaped(s[1])] + unescaped(s.skip(2))
    } else {
        seq![s[0]] + unescaped(s.skip(1))
    }
}

/// The test for the built-in with the glyph `c`.
pub open spec fn glyph_test(c: char) -> spec_fn(Primitive) -> bool {
    |p: Primitive| p.glyph() == Some(c)
}

/// The test for the built-in without a glyph that has the name `word`.
pub open spec fn word_test(word: Seq<char>) -> spec_fn(Primitive) -> bool {
    |p: Primitive| p.glyph() is None && p.name_text() == Some(word)
}

/// The first built-in of the table that passes `test`.
pub open spec fn first_built_in(test: spec_fn(Primitive) -> bool) -> Option<Primitive> {
    let found = Primitive::table().filter(test);
    if found.len() > 0 {
        Some(found[0])
    } else {
        None
    }
}

/// What a character between single quotes, which `s` begins with, is.
pub open spec fn character_literal(s: Seq<char>) -> Lexed {
    if s.len() >= 3 && s[1] != '\\' && s[1] != '\'' && s[1] != '\n' && s[2] == '\'' {
        Lexed::Token(Kind::Character(s[1]), 3)
    } else if s.len() >= 4 && s[1] == '\\' && s[2] != '\n' && s[3] == '\'' {
        Lexed::Token(Kind::Character(escaped(s[2])), 4)
    } else {
        Lexed::Incomplete
    }
}

/// The bracket that `c` opens.
pub open spec fn opens(c: char) -> Option<Bracket> {
    if c == '(' {
        Some(Bracket::Round)
    } else if c == '[' {
        Some(Bracket::Square)
    } else if c == '{' {
        Some(Bracket::Curly)
    } else {
        None
    }
}

/// The bracket that `c` closes.
pub open spec fn closes(c: char) -> Option<Bracket> {
    if c == ')' {
        Some(Bracket::Round)
    } else if c == ']' {
        Some(Bracket::Square)
    } else if c == '}' {
        Some(Bracket::Curly)
    } else {
        None
    }
}

/// What the text `s` begins with, which is not empty. `fresh` says that it
/// stands at the beginning of a line.
pub open spec fn lexed(s: Seq<char>, fresh: bool) -> Lexed {
    let c = s[0];
    if is_space(c) {
        Lexed::Skip(1)
    } else if c == '\n' {
        Lexed::Token(Kind::Line, 1)
    } else if c == '#' {
        Lexed::Skip(line_len(s))
    } else if number_len(s) > 0 {
        Lexed::Token(Kind::Number, number_len(s))
    } else if is_letter(c) {
        let k = word_len(s);
        match first_built_in(word_test(s.take(k as int))) {
            Some(p) => Lexed::Token(Kind::Primitive(p), k),
            None => Lexed::Token(Kind::Name, k),
        }
    } else if c == '"' {
        match quote_len(s, c, 1) {
            Some(k) => Lexed::Token(Kind::Text, k),
            None => Lexed::Incomplete,
        }
    } else if c == '\'' {
        character_literal(s)
    } else if opens(c) is Some {
        Lexed::Token(Kind::Open(opens(c).unwrap()), 1)
    } else if closes(c) is Some {
        Lexed::Token(Kind::Close(closes(c).unwrap()), 1)
    } else if c == '_' {
        Lexed::Token(Kind::Strand, 1)
    } else if c == '←' {
        Lexed::Token(Kind::Arrow, 1)
    } else if fresh && s.len() >= 3 && c == '-' && s[1] == '-' && s[2] == '-' {
        Lexed::Token(Kind::Scope, 3)
    } else {
        match first_built_in(glyph_test(c)) {
            Some(p) => Lexed::Token(Kind::Primitive(p), 1),
            None => if is_ascii(c) {
                Lexed::Unknown
            } else {
                Lexed::Token(Kind::Name, 1)
            },
        }
    }
}

/// Whether the place `i` of `s` is the beginning of a line.
pub open spec fn is_fresh(s: Seq<char>, i: int) -> bool {
    i == 0 || s[i - 1] == '\n'
}

/// Why a text has no tokens: the place of the fault, and whether it is a
/// literal that is not closed or a character that means nothing.
pub enum TokenFault {
    Incomplete(nat),
    Unknown(nat),
}

/// `token` before the tokens `rest`, where there are any.
pub open spec fn with_token(token: Token, rest: Result<Seq<Token>, TokenFault>) -> Result<
    Seq<Token>,
    TokenFault,
> {
    match rest {
        Ok(tokens) => Ok(seq![token] + tokens),
        Err(f) => Err(f),
    }
}

/// The tokens of `s` from the place `i` on.
pub open spec fn tokens_from(s: Seq<char>, i: nat) -> Result<Seq<Token>, TokenFault>
    decreases s.len() - i,
{
    if i >= s.len() {
        Ok(Seq::empty())
    } else {
        match lexed(s.skip(i as int), is_fresh(s, i as int)) {
            Lexed::Skip(k) => if 0 < k && i + k <= s.len() {
                tokens_from(s, i + k)
            } else {
                Ok(Seq::empty())
            },
            Lexed::Token(kind, k) => if 0 < k && i + k <= s.len() {
                with_token(
                    Token { kind, start: i as usize, end: (i + k) as usize },
                    tokens_from(s, i + k),
                )
            } else {
                Ok(Seq::empty())
            },
            Lexed::Incomplete => Err(TokenFault::Incomplete(i)),
            Lexed::Unknown => Err(TokenFault::Unknown(i)),
        }
    }
}

/// The tokens of the text `s`.
pub open spec fn tokens_of(s: Seq<char>) -> Result<Seq<Token>, TokenFault> {
    tokens_from(s, 0)
}

/// What the tokenizer found at a place: how far the lexeme goes, and the
/// token that it is, if it is one.
enum Found {
    Skip(usize),
    Token(Kind, usize),
    Incomplete,
    Unknown,
}

fn digit(c: char) -> (r: bool)
    ensures
        r == is_digit(c),
{
    '0' <= c && c <= '9'
}

fn digits_end(s: &Vec<char>, i: usize) -> (j: usize)
    requires
        i <= s@.len(),
    ensures
        i <= j <= s@.len(),
        j - i == digits_len(s@.skip(i as int)),
{
    let mut j: usize = i;
    while j < s.len() && digit(s[j])
        invariant
            i <= j <= s@.len(),
            digits_len(s@.skip(i as int)) == (j - i) + digits_len(s@.skip(j as int)),
        decreases s@.len() - j,
    {
        proof {
            assert(s@.skip(j as int)[0] == s@[j as int]);
            assert(s@.skip(j as int).drop_first() =~= s@.skip(j + 1));
        }
        j = j + 1;
    }
    proof {
        if j < s@.len() {
            assert(s@.skip(j as int)[0] == s@[j as int]);
        }
    }
    j
}

fn unsigned_end(s: &Vec<char>, i: usize) -> (j: usize)
    requires
        i <= s@.len(),
    ensures
        i <= j <= s@.len(),
        j - i == unsigned_len(s@.skip(i as int)),
{
    let n = s.len();
    let ghost t = s@.skip(i as int);
    if i < n && (s[i] == 'π' || s[i] == '∞') {
        assert(t[0] == s@[i as int]);
        return i + 1;
    }
    proof {
        if i < n {
            assert(t[0] == s@[i as int]);
        }
    }
    let whole = digits_end(s, i);
    if whole > i && whole < n && n - whole > 1 && s[whole] == '.' && digit(s[whole + 1]) {
        let j = digits_end(s, whole + 1);
        proof {
            assert(t[whole - i] == s@[whole as int]);
            assert(t[whole - i + 1] == s@[whole + 1]);
            lemma_skip_skip(s@, i as int, whole + 1 - i);
        }
        j
    } else {
        proof {
            if whole > i && whole + 1 < n {
                assert(t[whole - i] == s@[whole as int]);
                assert(t[whole - i + 1] == s@[whole + 1]);
            }
        }
        whole
    }
}

fn number_end(s: &Vec<char>, i: usize) -> (j: usize)
    requires
        i < s@.len(),
    ensures
        i <= j <= s@.len(),
        j - i == number_len(s@.skip(i as int)),
{
    let n = s.len();
    let ghost t = s@.skip(i as int);
    assert(t[0] == s@[i as int]);
    if s[i] == '¯' {
        let j = unsigned_end(s, i + 1);
        proof {
            lemma_skip_skip(s@, i as int, 1);
        }
        if j > i + 1 {
            j
        } else {
            i
        }
    } else {
        unsigned_end(s, i)
    }
}

fn same_word(name: &Vec<char>, s: &Vec<char>, i: usize, j: usize) -> (r: bool)
    requires
        i <= j <= s@.len(),
    ensures
        r == (name@ == s@.subrange(i as int, j as int)),
{
    let ghost word = s@.subrange(i as int, j as int);
    if name.len() != j - i {
        return false;
    }
    let mut k: usize = 0;
    while k < j - i
        invariant
            i <= j <= s@.len(),
            k <= j - i,
            name@.len() == j - i,
            word == s@.subrange(i as int, j as int),
            forall|m: int| 0 <= m < k ==> name@[m] == word[m],
        decreases j - i - k,
    {
        if name[k] != s[i + k] {
            assert(name@[k as int] != word[k as int]);
            return false;
        }
        k = k + 1;
    }
    assert(name@ =~= word);
    true
}

/// The built-in without a glyph that is named by the word from `i` to `j`.
fn built_in_word(s: &Vec<char>, i: usize, j: usize) -> (r: Option<Primitive>)
    requires
        i <= j <= s@.len(),
    ensures
        r == first_built_in(word_test(s@.subrange(i as int, j as int))),
{
    let ghost test = word_test(s@.subrange(i as int, j as int));
    let table = Primitive::all();
    let mut k: usize = 0;
    proof {
        assert(table@.take(0) =~= Seq::<Primitive>::empty());
        reveal(Seq::filter);
    }
    while k < table.len()
        invariant
            i <= j <= s@.len(),
            k <= table.len(),
            table@ == Primitive::table(),
            test == word_test(s@.subrange(i as int, j as int)),
            table@.take(k as int).filter(test).len() == 0,
        decreases table.len() - k,
    {
        let p = table[k];
        proof {
            assert(table@.take(k + 1) =~= table@.take(k as int).push(p));
            lemma_filter_push(table@.take(k as int), p, test);
        }
        if p.unicode().is_none() {
            match p.name() {
                Some(n) => {
                    let name = chars_of(n);
                    if same_word(&name, s, i, j) {
                        proof {
                            lemma_first_kept(table@, k as int, test);
                        }
                        return Some(p);
                    }
                },
                None => {},
            }
        }
        k = k + 1;
    }
    assert(table@.take(k as int) =~= table@);
    None
}

/// The built-in with the glyph `c`.
pub fn built_in_glyph(c: char) -> (r: Option<Primitive>)
    ensures
        r == first_built_in(glyph_test(c)),
{
    let ghost test = glyph_test(c);
    let table = Primitive::all();
    let mut k: usize = 0;
    proof {
        assert(table@.take(0) =~= Seq::<Primitive>::empty());
        reveal(Seq::filter);
    }
    while k < table.len()
        invariant
            k <= table.len(),
            table@ == Primitive::table(),
            test == glyph_test(c),
            table@.take(k as int).filter(test).len() == 0,
        decreases table.len() - k,
    {
        let p = table[k];
        proof {
            assert(table@.take(k + 1) =~= table@.take(k as int).push(p));
            lemma_filter_push(table@.take(k as int), p, test);
        }
        match p.unicode() {
            Some(g) => {
                if g == c {
                    proof {
                        lemma_first_kept(table@, k as int, test);
                    }
                    return Some(p);
                }
            },
            None => {},
        }
        k = k + 1;
    }
    assert(table@.take(k as int) =~= table@);
    None
}

fn escape(c: char) -> (r: char)
    ensures
        r == escaped(c),
{
    if c == 'n' {
        '\n'
    } else if c == 't' {
        '\t'
    } else if c == 'r' {
        '\r'
    } else if c == '0' {
        '\0'
    } else {
        c
    }
}

/// The characters that the contents of a quoted literal stand for, which
/// stand from `i` to `j` in `s`.
pub(crate) fn unescape(s: &Vec<char>, i: usize, j: usize) -> (r: Vec<char>)
    requires
        i <= j <= s@.len(),
    ensures
        r@ == unescaped(s@.subrange(i as int, j as int)),
{
    let mut r: Vec<char> = Vec::new();
    let mut k: usize = i;
    let ghost all = s@.subrange(i as int, j as int);
    assert(all.skip(0) =~= all);
    assert(Seq::<char>::empty() + unescaped(all) =~= unescaped(all));
    while k < j
        invariant
            i <= k <= j <= s@.len(),
            all == s@.subrange(i as int, j as int),
            unescaped(all) == r@ + unescaped(all.skip(k - i)),
        decreases j - k,
    {
        let ghost rest = all.skip(k - i);
        let ghost before = r@;
        assert(rest[0] == s@[k as int]);
        if s[k] == '\\' && k + 1 < j {
            assert(rest[1] == s@[k + 1]);
            r.push(escape(s[k + 1]));
            proof {
                assert(rest.skip(2) =~= all.skip(k + 2 - i));
                assert(before + (seq![escaped(s@[k + 1])] + unescaped(rest.skip(2))) =~= r@
                    + unescaped(rest.skip(2)));
            }
            k = k + 2;
        } else {
            r.push(s[k]);
            proof {
                assert(rest.skip(1) =~= all.skip(k + 1 - i));
                assert(before + (seq![s@[k as int]] + unescaped(rest.skip(1))) =~= r@ + unescaped(
                    rest.skip(1),
                ));
            }
            k = k + 1;
        }
    }
    assert(all.skip(j - i).len() == 0);
    assert(r@ + Seq::<char>::empty() =~= r@);
    r
}

fn find(s: &Vec<char>, i: usize) -> (r: Found)
    requires
        i < s@.len(),
    ensures
        match r {
            Found::Skip(j) => i < j <= s@.len() && lexed(
                s@.skip(i as int),
                is_fresh(s@, i as int),
            ) == Lexed::Skip((j - i) as nat),
            Found::Token(kind, j) => i < j <= s@.len() && lexed(
                s@.skip(i as int),
                is_fresh(s@, i as int),
            ) == Lexed::Token(kind, (j - i) as nat),
            Found::Incomplete => lexed(s@.skip(i as int), is_fresh(s@, i as int))
                is Incomplete,
            Found::Unknown => lexed(s@.skip(i as int), is_fresh(s@, i as int)) is Unknown,
        },
{
    let n = s.len();
    let c = s[i];
    let ghost t = s@.skip(i as int);
    assert(t[0] == c);
    if c == ' ' || c == '\t' || c == '\r' {
        return Found::Skip(i + 1);
    }
    if c == '\n' {
        return Found::Token(Kind::Line, i + 1);
    }
    if c == '#' {
        let j = line_end(s, i);
        proof {
            lemma_line_len(t);
        }
        return Found::Skip(j);
    }
    let number = number_end(s, i);
    if number > i {
        return Found::Token(Kind::Number, number);
    }
    if letter(c) {
        let j = word_end(s, i);
        proof {
            lemma_word_len(t);
            lemma_skip_skip(s@, i as int, j - i);
        }
        return match built_in_word(s, i, j) {
            Some(p) => Found::Token(Kind::Primitive(p), j),
            None => Found::Token(Kind::Name, j),
        };
    }
    if c == '"' {
        return match quote_end(s, i) {
            Some(j) => Found::Token(Kind::Text, j),
            None => Found::Incomplete,
        };
    }
    if c == '\'' {
        proof {
            if i + 1 < n {
                assert(t[1] == s@[i + 1]);
            }
            if i + 2 < n {
                assert(t[2] == s@[i + 2]);
            }
            if i + 3 < n {
                assert(t[3] == s@[i + 3]);
            }
        }
        if n - i >= 3 && s[i + 1] != '\\' && s[i + 1] != '\'' && s[i + 1] != '\n' && s[i + 2]
            == '\'' {
            return Found::Token(Kind::Character(s[i + 1]), i + 3);
        }
        if n - i >= 4 && s[i + 1] == '\\' && s[i + 2] != '\n' && s[i + 3] == '\'' {
            return Found::Token(Kind::Character(escape(s[i + 2])), i + 4);
        }
        return Found::Incomplete;
    }
    if c == '(' {
        return Found::Token(Kind::Open(Bracket::Round), i + 1);
    }
    if c == '[' {
        return Found::Token(Kind::Open(Bracket::Square), i + 1);
    }
    if c == '{' {
        return Found::Token(Kind::Open(Bracket::Curly), i + 1);
    }
    if c == ')' {
        return Found::Token(Kind::Close(Bracket::Round), i + 1);
    }
    if c == ']' {
        return Found::Token(Kind::Close(Bracket::Square), i + 1);
    }
    if c == '}' {
        return Found::Token(Kind::Close(Bracket::Curly), i + 1);
    }
    if c == '_' {
        return Found::Token(Kind::Strand, i + 1);
    }
    if c == '←' {
        return Found::Token(Kind::Arrow, i + 1);
    }
    let fresh = i == 0 || s[i - 1] == '\n';
    proof {
        if i + 1 < n {
            assert(t[1] == s@[i + 1]);
        }
        if i + 2 < n {
            assert(t[2] == s@[i + 2]);
        }
    }
    if fresh && n - i >= 3 && c == '-' && s[i + 1] == '-' && s[i + 2] == '-' {
        return Found::Token(Kind::Scope, i + 3);
    }
    match built_in_glyph(c) {
        Some(p) => Found::Token(Kind::Primitive(p), i + 1),
        None => if (c as u32) < 128 {
            Found::Unknown
        } else {
            Found::Token(Kind::Name, i + 1)
        },
    }
}

/// Every token stands within the first `len` characters of the text, is not
/// empty, and begins where the token before it has ended or later.
pub open spec fn in_text(tokens: Seq<Token>, len: nat) -> bool {
    &&& forall|k: int|
        0 <= k < tokens.len() ==> (#[trigger] tokens[k]).start < tokens[k].end <= len
    &&& forall|k: int, l: int|
        0 <= k < l < tokens.len() ==> (#[trigger] tokens[k]).end <= (#[trigger] tokens[l]).start
}

/// The fault `f` of the text is what the error `e` reports.
pub open spec fn reports_fault(e: FormatError, f: TokenFault) -> bool {
    match (e, f) {
        (FormatError::Incomplete { position }, TokenFault::Incomplete(at)) => position == at,
        (FormatError::Unknown { position }, TokenFault::Unknown(at)) => position == at,
        _ => false,
    }
}

/// The tokens of the text `s`.
///
/// Fails at the first quoted literal that is not closed and at the first
/// character that means nothing.
pub fn tokenize(s: &Vec<char>) -> (r: Result<Vec<Token>, FormatError>)
    ensures
        match r {
            Ok(tokens) => tokens_of(s@) == Ok::<Seq<Token>, TokenFault>(tokens@) && in_text(
                tokens@,
                s@.len(),
            ),
            Err(e) => tokens_of(s@) is Err && reports_fault(e, tokens_of(s@)->Err_0),
        },
{
    let n = s.len();
    let mut tokens: Vec<Token> = Vec::new();
    let mut i: usize = 0;
    assert(Seq::<Token>::empty() + tokens_of(s@)->Ok_0 =~= tokens_of(s@)->Ok_0);
    while i < n
        invariant
            i <= n,
            n == s@.len(),
            tokens_of(s@) == match tokens_from(s@, i as nat) {
                Ok(rest) => Ok::<Seq<Token>, TokenFault>(tokens@ + rest),
                Err(f) => Err(f),
            },
            in_text(tokens@, i as nat),
        decreases n - i,
    {
        let ghost before = tokens@;
        match find(s, i) {
            Found::Skip(j) => {
                i = j;
            },
            Found::Token(kind, j) => {
                let token = Token { kind, start: i, end: j };
                tokens.push(token);
                proof {
                    let rest = tokens_from(s@, j as nat);
                    if rest is Ok {
                        assert(before + (seq![token] + rest->Ok_0) =~= tokens@ + rest->Ok_0);
                    }
                }
                i = j;
            },
            Found::Incomplete => {
                return Err(FormatError::Incomplete { position: i });
            },
            Found::Unknown => {
                return Err(FormatError::Unknown { position: i });
            },
        }
    }
    assert(tokens@ + Seq::<Token>::empty() =~= tokens@);
    Ok(tokens)
}

} // verus!
