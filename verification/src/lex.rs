//! The lexical frame of source text: words, quoted literals, comments, and
//! single characters.
//!
//! Everything here speaks of a text from its first character on. A caller at
//! the position `i` of a text `s` speaks of `s.skip(i)`.

use vstd::prelude::*;

verus! {

/// An ASCII letter.
pub open spec fn is_letter(c: char) -> bool {
    ('a' <= c && c <= 'z') || ('A' <= c && c <= 'Z')
}

/// A lower-case ASCII letter.
pub open spec fn is_lower(c: char) -> bool {
    'a' <= c && c <= 'z'
}

/// A character that opens a quoted literal.
pub open spec fn is_quote(c: char) -> bool {
    c == '"' || c == '\''
}

/// The number of letters that `s` begins with.
pub open spec fn word_len(s: Seq<char>) -> nat
    decreases s.len(),
{
    if s.len() > 0 && is_letter(s[0]) {
        1 + word_len(s.drop_first())
    } else {
        0
    }
}

/// The number of characters of `s` before its first line break.
pub open spec fn line_len(s: Seq<char>) -> nat
    decreases s.len(),
{
    if s.len() > 0 && s[0] != '\n' {
        1 + line_len(s.drop_first())
    } else {
        0
    }
}

/// The length of the quoted literal that `s` begins with, its two quotes
/// included, when the quote `q` opened it and it is read up to `i`. A
/// backslash takes the next character with it. A literal that the line or the
/// text ends before its closing quote has no length.
pub open spec fn quote_len(s: Seq<char>, q: char, i: nat) -> Option<nat>
    decreases s.len() - i,
{
    if i >= s.len() {
        None
    } else if s[i as int] == '\n' {
        None
    } else if s[i as int] == q {
        Some(i + 1)
    } else if s[i as int] == '\\' {
        if i + 1 < s.len() && s[i as int + 1] != '\n' {
            quote_len(s, q, i + 2)
        } else {
            None
        }
    } else {
        quote_len(s, q, i + 1)
    }
}

/// What a text begins with.
pub enum Lexeme {
    /// A word of this many letters.
    Word(nat),
    /// A quoted literal or a comment of this many characters, which stands
    /// for itself.
    Literal(nat),
    /// A quoted literal that is not closed.
    Broken,
    /// Any other character, by itself.
    Symbol,
}

/// What the text `s`, which is not empty, begins with.
pub open spec fn lexeme(s: Seq<char>) -> Lexeme {
    let c = s[0];
    if is_letter(c) {
        Lexeme::Word(word_len(s))
    } else if is_quote(c) {
        match quote_len(s, c, 1) {
            Some(k) => Lexeme::Literal(k),
            None => Lexeme::Broken,
        }
    } else if c == '#' {
        Lexeme::Literal(line_len(s))
    } else {
        Lexeme::Symbol
    }
}

/// A character that is a lexeme by itself wherever it stands.
pub open spec fn is_plain(c: char) -> bool {
    !is_letter(c) && !is_quote(c) && c != '#'
}

pub proof fn lemma_skip_skip(s: Seq<char>, i: int, k: int)
    requires
        0 <= i,
        0 <= k,
        i + k <= s.len(),
    ensures
        s.skip(i).skip(k) == s.skip(i + k),
        s.skip(i).take(k) == s.subrange(i, i + k),
{
    assert(s.skip(i).skip(k) =~= s.skip(i + k));
    assert(s.skip(i).take(k) =~= s.subrange(i, i + k));
}

/// A word is as long as the text at most, is made of letters, and no letter follows it.
pub proof fn lemma_word_len(s: Seq<char>)
    ensures
        word_len(s) <= s.len(),
        forall|j: int| 0 <= j < word_len(s) ==> is_letter(#[trigger] s[j]),
        word_len(s) < s.len() ==> !is_letter(s[word_len(s) as int]),
        s.len() > 0 && is_letter(s[0]) ==> word_len(s) >= 1,
    decreases s.len(),
{
    if s.len() > 0 && is_letter(s[0]) {
        let rest = s.drop_first();
        lemma_word_len(rest);
        assert forall|j: int| 0 <= j < word_len(s) implies is_letter(#[trigger] s[j]) by {
            if j > 0 {
                assert(s[j] == rest[j - 1]);
            }
        }
        if word_len(s) < s.len() {
            assert(s[word_len(s) as int] == rest[word_len(rest) as int]);
        }
    }
}

/// Letters followed by something that does not begin with a letter are one word.
pub proof fn lemma_word_stable(w: Seq<char>, z: Seq<char>)
    requires
        forall|j: int| 0 <= j < w.len() ==> is_letter(#[trigger] w[j]),
        z.len() > 0 ==> !is_letter(z[0]),
    ensures
        word_len(w + z) == w.len(),
    decreases w.len(),
{
    if w.len() == 0 {
        assert(w + z =~= z);
    } else {
        assert((w + z).drop_first() =~= w.drop_first() + z);
        assert forall|j: int| 0 <= j < w.drop_first().len() implies is_letter(
            #[trigger] w.drop_first()[j],
        ) by {
            assert(w.drop_first()[j] == w[j + 1]);
        }
        lemma_word_stable(w.drop_first(), z);
        assert((w + z)[0] == w[0]);
    }
}

/// A line is as long as the text at most, holds no line break, and ends at
/// a line break or with the text.
pub proof fn lemma_line_len(s: Seq<char>)
    ensures
        line_len(s) <= s.len(),
        forall|j: int| 0 <= j < line_len(s) ==> #[trigger] s[j] != '\n',
        line_len(s) < s.len() ==> s[line_len(s) as int] == '\n',
    decreases s.len(),
{
    if s.len() > 0 && s[0] != '\n' {
        let rest = s.drop_first();
        lemma_line_len(rest);
        assert forall|j: int| 0 <= j < line_len(s) implies #[trigger] s[j] != '\n' by {
            if j > 0 {
                assert(s[j] == rest[j - 1]);
            }
        }
        if line_len(s) < s.len() {
            assert(s[line_len(s) as int] == rest[line_len(rest) as int]);
        }
    }
}

/// Characters other than line breaks, followed by nothing or by a line break,
/// are one line.
pub proof fn lemma_line_stable(w: Seq<char>, z: Seq<char>)
    requires
        forall|j: int| 0 <= j < w.len() ==> #[trigger] w[j] != '\n',
        z.len() > 0 ==> z[0] == '\n',
    ensures
        line_len(w + z) == w.len(),
    decreases w.len(),
{
    if w.len() == 0 {
        assert(w + z =~= z);
    } else {
        assert((w + z).drop_first() =~= w.drop_first() + z);
        assert forall|j: int| 0 <= j < w.drop_first().len() implies #[trigger] w.drop_first()[j]
            != '\n' by {
            assert(w.drop_first()[j] == w[j + 1]);
        }
        lemma_line_stable(w.drop_first(), z);
        assert((w + z)[0] == w[0]);
    }
}

/// A closed literal ends within the text, behind the place it was read up to,
/// and holds no line break from there on.
pub proof fn lemma_quote_len(s: Seq<char>, q: char, i: nat)
    requires
        quote_len(s, q, i) is Some,
    ensures
        i < quote_len(s, q, i).unwrap() <= s.len(),
        forall|j: int| i <= j < quote_len(s, q, i).unwrap() ==> #[trigger] s[j] != '\n',
    decreases s.len() - i,
{
    if s[i as int] == q {
    } else if s[i as int] == '\\' {
        lemma_quote_len(s, q, i + 2);
    } else {
        lemma_quote_len(s, q, i + 1);
    }
}

/// The length of a closed literal depends on the literal alone, not on what follows it.
pub proof fn lemma_quote_stable(s: Seq<char>, q: char, i: nat, z: Seq<char>)
    requires
        quote_len(s, q, i) is Some,
    ensures
        quote_len(s.take(quote_len(s, q, i).unwrap() as int) + z, q, i) == quote_len(s, q, i),
    decreases s.len() - i,
{
    let k = quote_len(s, q, i).unwrap();
    lemma_quote_len(s, q, i);
    let t = s.take(k as int) + z;
    assert(t[i as int] == s[i as int]);
    if s[i as int] == q {
    } else if s[i as int] == '\\' {
        lemma_quote_len(s, q, i + 2);
        assert(t[i as int + 1] == s[i as int + 1]);
        lemma_quote_stable(s, q, i + 2, z);
    } else {
        lemma_quote_stable(s, q, i + 1, z);
    }
}

/// Whether `c` is an ASCII letter.
pub fn letter(c: char) -> (r: bool)
    ensures
        r == is_letter(c),
{
    ('a' <= c && c <= 'z') || ('A' <= c && c <= 'Z')
}

/// The end of the word that begins at `i`.
pub(crate) fn word_end(s: &Vec<char>, i: usize) -> (j: usize)
    requires
        i <= s@.len(),
    ensures
        i <= j <= s@.len(),
        j - i == word_len(s@.skip(i as int)),
{
    let mut j: usize = i;
    while j < s.len() && letter(s[j])
        invariant
            i <= j <= s@.len(),
            word_len(s@.skip(i as int)) == (j - i) + word_len(s@.skip(j as int)),
        decreases s@.len() - j,
    {
        proof {
            assert(s@.skip(j as int)[0] == s@[j as int]);
            assert(s@.skip(j as int).drop_first() =~= s@.skip(j + 1));
        }
        j = j + 1;
    }
    proof {
        if j < s@.len() {
            assert(s@.skip(j as int)[0] == s@[j as int]);
        }
    }
    j
}

/// The end of the line that `i` stands in: the place of the next line break,
/// or the end of the text.
pub(crate) fn line_end(s: &Vec<char>, i: usize) -> (j: usize)
    requires
        i <= s@.len(),
    ensures
        i <= j <= s@.len(),
        j - i == line_len(s@.skip(i as int)),
{
    let mut j: usize = i;
    while j < s.len() && s[j] != '\n'
        invariant
            i <= j <= s@.len(),
            line_len(s@.skip(i as int)) == (j - i) + line_len(s@.skip(j as int)),
        decreases s@.len() - j,
    {
        proof {
            assert(s@.skip(j as int)[0] == s@[j as int]);
            assert(s@.skip(j as int).drop_first() =~= s@.skip(j + 1));
        }
        j = j + 1;
    }
    proof {
        if j < s@.len() {
            assert(s@.skip(j as int)[0] == s@[j as int]);
        }
    }
    j
}

/// The end of the quoted literal that begins at `i`, where it is closed.
pub(crate) fn quote_end(s: &Vec<char>, i: usize) -> (r: Option<usize>)
    requires
        i < s@.len(),
    ensures
        match r {
            Some(j) => i < j <= s@.len() && quote_len(s@.skip(i as int), s@[i as int], 1) == Some(
                (j - i) as nat,
            ),
            None => quote_len(s@.skip(i as int), s@[i as int], 1) is None,
        },
{
    let n = s.len();
    let q = s[i];
    let ghost t = s@.skip(i as int);
    let mut j: usize = i + 1;
    loop
        invariant
            i < j <= s@.len() + 1,
            n == s@.len(),
            i < s@.len(),
            t == s@.skip(i as int),
            q == s@[i as int],
            quote_len(t, q, 1) == quote_len(t, q, (j - i) as nat),
        decreases s@.len() + 1 - j,
    {
        if j >= s.len() {
            return None;
        }
        let c = s[j];
        assert(t[j - i] == c);
        if c == '\n' {
            return None;
        } else if c == q {
            return Some(j + 1);
        } else if c == '\\' {
            if j + 1 < s.len() && s[j + 1] != '\n' {
                assert(t[j + 1 - i] == s@[j + 1]);
                j = j + 2;
            } else {
                proof {
                    if j + 1 < s@.len() {
                        assert(t[j + 1 - i] == s@[j + 1]);
                    }
                }
                return None;
            }
        } else {
            j = j + 1;
        }
    }
}

} // verus!
