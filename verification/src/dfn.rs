//! Dfns: blocks of code in braces that name their arguments by single
//! lower-case letters, and take as many arguments as the last letter they
//! name asks for.

use vstd::prelude::*;
use crate::lex::{
    is_lower, lemma_line_len, lemma_skip_skip, lemma_word_len, letter, lexeme, line_end, quote_end,
    word_end, Lexeme,
};
use crate::text::chars_of;

verus! {

/// The most arguments that a dfn can take: one for each letter.
pub const MAX_ARITY: u8 = 26;

/// The place of a lower-case letter in the alphabet, counted from 1.
pub open spec fn letter_index(c: char) -> int {
    c as int - 'a' as int + 1
}

/// The lower-case letter at the place `n` of the alphabet, counted from 1.
pub open spec fn letter_at(n: int) -> char {
    ('a' as int + n - 1) as char
}

/// The nesting depth behind the character `c` read at the depth `depth`: a
/// brace opens a dfn inside the dfn, whose arguments are its own.
pub open spec fn depth_after(c: char, depth: nat) -> nat {
    if c == '{' {
        depth + 1
    } else if c == '}' && depth > 0 {
        (depth - 1) as nat
    } else {
        depth
    }
}

/// Whether the code `s`, read at the nesting depth `depth`, refers to the
/// argument `c` of the dfn at depth 0: `c` stands as a word by itself, outside
/// quoted literals, comments and dfns inside the dfn.
pub open spec fn refers(s: Seq<char>, depth: nat, c: char) -> bool
    decreases s.len(),
{
    if s.len() == 0 {
        false
    } else {
        match lexeme(s) {
            Lexeme::Word(k) => (depth == 0 && k == 1 && s[0] == c && is_lower(c)) || (0 < k
                <= s.len() && refers(s.skip(k as int), depth, c)),
            Lexeme::Literal(k) => 0 < k <= s.len() && refers(s.skip(k as int), depth, c),
            Lexeme::Broken => false,
            Lexeme::Symbol => refers(s.skip(1), depth_after(s[0], depth), c),
        }
    }
}

/// The place in the alphabet of the last letter up to the place `n` that
/// `body` refers to, or 0 where it refers to none of them.
pub open spec fn highest(body: Seq<char>, n: nat) -> nat
    decreases n,
{
    if n == 0 {
        0
    } else if refers(body, 0, letter_at(n as int)) {
        n
    } else {
        highest(body, (n - 1) as nat)
    }
}

/// The number of arguments of the dfn with the body `body`: the place in the
/// alphabet of the last letter that the body refers to.
pub open spec fn arity_of(body: Seq<char>) -> nat {
    highest(body, MAX_ARITY as nat)
}

/// A body refers to lower-case letters only.
pub proof fn lemma_refers_lower(s: Seq<char>, depth: nat, c: char)
    requires
        refers(s, depth, c),
    ensures
        is_lower(c),
        1 <= letter_index(c) <= MAX_ARITY,
        letter_at(letter_index(c)) == c,
    decreases s.len(),
{
    match lexeme(s) {
        Lexeme::Word(k) => {
            if !(depth == 0 && k == 1 && s[0] == c && is_lower(c)) {
                lemma_refers_lower(s.skip(k as int), depth, c);
            }
        },
        Lexeme::Literal(k) => {
            lemma_refers_lower(s.skip(k as int), depth, c);
        },
        Lexeme::Broken => {},
        Lexeme::Symbol => {
            lemma_refers_lower(s.skip(1), depth_after(s[0], depth), c);
        },
    }
}

proof fn lemma_highest(body: Seq<char>, n: nat, top: nat)
    requires
        top <= n <= MAX_ARITY,
        top > 0 ==> refers(body, 0, letter_at(top as int)),
        forall|m: int| top < m <= MAX_ARITY ==> !refers(body, 0, #[trigger] letter_at(m)),
    ensures
        highest(body, n) == top,
    decreases n,
{
    if n > top {
        assert(!refers(body, 0, letter_at(n as int)));
        lemma_highest(body, (n - 1) as nat, top);
    }
}

proof fn lemma_highest_refers(body: Seq<char>, n: nat)
    requires
        n <= MAX_ARITY,
    ensures
        highest(body, n) <= n,
        highest(body, n) > 0 ==> refers(body, 0, letter_at(highest(body, n) as int)),
        forall|m: int| highest(body, n) < m <= n ==> !refers(body, 0, #[trigger] letter_at(m)),
    decreases n,
{
    if n > 0 && !refers(body, 0, letter_at(n as int)) {
        lemma_highest_refers(body, (n - 1) as nat);
    }
}

/// The arity of a dfn is the place of the last letter that its body refers
/// to: no letter that the body refers to lies beyond it, the body refers to
/// the letter at that place, and the arity is 0 exactly where the body refers
/// to no letter. A dfn takes 26 arguments at most.
pub proof fn lemma_arity(body: Seq<char>)
    ensures
        arity_of(body) <= MAX_ARITY,
        forall|c: char| refers(body, 0, c) ==> letter_index(c) <= arity_of(body),
        arity_of(body) > 0 ==> refers(body, 0, letter_at(arity_of(body) as int)),
        arity_of(body) == 0 <==> forall|c: char| !refers(body, 0, c),
{
    lemma_highest_refers(body, MAX_ARITY as nat);
    assert forall|c: char| refers(body, 0, c) implies letter_index(c) <= arity_of(body) by {
        lemma_refers_lower(body, 0, c);
        if letter_index(c) > arity_of(body) {
            assert(!refers(body, 0, letter_at(letter_index(c))));
        }
    }
    if arity_of(body) == 0 {
        assert forall|c: char| !refers(body, 0, c) by {
            if refers(body, 0, c) {
                lemma_refers_lower(body, 0, c);
            }
        }
    }
}

/// The arity of a dfn depends on which letters its body refers to, not on
/// their order or number: two bodies that refer to the same letters have the
/// same arity.
pub proof fn lemma_arity_by_letters(first: Seq<char>, second: Seq<char>)
    requires
        forall|c: char| refers(first, 0, c) == refers(second, 0, c),
    ensures
        arity_of(first) == arity_of(second),
{
    lemma_arity(first);
    lemma_arity(second);
    let a = arity_of(first);
    let b = arity_of(second);
    if a > 0 {
        assert(refers(second, 0, letter_at(a as int)));
        assert(letter_index(letter_at(a as int)) == a);
    }
    if b > 0 {
        assert(refers(first, 0, letter_at(b as int)));
        assert(letter_index(letter_at(b as int)) == b);
    }
}

/// A dfn whose body refers to the letter at the place `n` and to no letter
/// beyond it takes `n` arguments.
pub proof fn lemma_arity_of_last_letter(body: Seq<char>, n: nat)
    requires
        1 <= n <= MAX_ARITY,
        refers(body, 0, letter_at(n as int)),
        forall|c: char| refers(body, 0, c) ==> letter_index(c) <= n,
    ensures
        arity_of(body) == n,
{
    assert forall|m: int| n < m <= MAX_ARITY implies !refers(body, 0, #[trigger] letter_at(m)) by {
        if refers(body, 0, letter_at(m)) {
            assert(letter_index(letter_at(m)) == m);
        }
    }
    lemma_highest(body, MAX_ARITY as nat, n);
}

/// The number of arguments of the dfn with the body `body`.
pub fn dfn_arity(body: &str) -> (r: u8)
    ensures
        r == arity_of(body@),
        r <= MAX_ARITY,
{
    let s = chars_of(body);
    arity_of_chars(&s)
}

/// The number of arguments of the dfn whose body stands from `lo` to `hi` in `s`.
pub(crate) fn arity_between(s: &Vec<char>, lo: usize, hi: usize) -> (r: u8)
    requires
        lo <= hi <= s@.len(),
    ensures
        r == arity_of(s@.subrange(lo as int, hi as int)),
        r <= MAX_ARITY,
{
    let mut body: Vec<char> = Vec::new();
    let mut k: usize = lo;
    while k < hi
        invariant
            lo <= k <= hi <= s@.len(),
            body@ == s@.subrange(lo as int, k as int),
        decreases hi - k,
    {
        body.push(s[k]);
        k = k + 1;
        assert(body@ =~= s@.subrange(lo as int, k as int));
    }
    arity_of_chars(&body)
}

/// The number of arguments of the dfn with the body `s`.
pub fn arity_of_chars(s: &Vec<char>) -> (r: u8)
    ensures
        r == arity_of(s@),
        r <= MAX_ARITY,
{
    let n = s.len();
    let mut i: usize = 0;
    let mut depth: usize = 0;
    let mut top: u8 = 0;
    let ghost mut seen: Set<char> = Set::empty();
    assert(s@.skip(0) =~= s@);
    while i < n
        invariant
            i <= n,
            n == s@.len(),
            depth <= i,
            top <= MAX_ARITY,
            forall|c: char|
                #[trigger] refers(s@, 0, c) <==> seen.contains(c) || refers(
                    s@.skip(i as int),
                    depth as nat,
                    c,
                ),
            forall|c: char| #[trigger] seen.contains(c) ==> is_lower(c) && letter_index(c) <= top,
            top > 0 ==> seen.contains(letter_at(top as int)),
        decreases n - i,
    {
        let c = s[i];
        let ghost rest = s@.skip(i as int);
        assert(rest[0] == c);
        if letter(c) {
            let j = word_end(&s, i);
            proof {
                lemma_word_len(rest);
                lemma_skip_skip(s@, i as int, j - i);
                assert(lexeme(rest) == Lexeme::Word((j - i) as nat));
                assert forall|d: char|
                    #[trigger] refers(rest, depth as nat, d) <==> (depth == 0 && j - i == 1 && c == d
                        && is_lower(d)) || refers(s@.skip(j as int), depth as nat, d) by {}
            }
            if depth == 0 && j - i == 1 && 'a' <= c && c <= 'z' {
                let index: u8 = ((c as u32) - ('a' as u32) + 1) as u8;
                assert(index == letter_index(c));
                assert(letter_at(index as int) == c);
                if index > top {
                    top = index;
                }
                proof {
                    seen = seen.insert(c);
                }
            }
            i = j;
        } else if c == '"' || c == '\'' {
            match quote_end(&s, i) {
                Some(j) => {
                    proof {
                        lemma_skip_skip(s@, i as int, j - i);
                        assert(lexeme(rest) == Lexeme::Literal((j - i) as nat));
                        assert forall|d: char|
                            #[trigger] refers(rest, depth as nat, d) <==> refers(
                                s@.skip(j as int),
                                depth as nat,
                                d,
                            ) by {}
                    }
                    i = j;
                },
                None => {
                    proof {
                        assert(lexeme(rest) == Lexeme::Broken);
                        assert(s@.skip(n as int).len() == 0);
                        assert forall|d: char|
                            #[trigger] refers(rest, depth as nat, d) <==> refers(
                                s@.skip(n as int),
                                depth as nat,
                                d,
                            ) by {}
                    }
                    i = n;
                },
            }
        } else if c == '#' {
            let j = line_end(&s, i);
            proof {
                lemma_line_len(rest);
                lemma_skip_skip(s@, i as int, j - i);
                assert(lexeme(rest) == Lexeme::Literal((j - i) as nat));
                assert forall|d: char|
                    #[trigger] refers(rest, depth as nat, d) <==> refers(s@.skip(j as int), depth as nat, d) by {}
            }
            i = j;
        } else {
            proof {
                lemma_skip_skip(s@, i as int, 1);
                assert(lexeme(rest) == Lexeme::Symbol);
                assert forall|d: char|
                    #[trigger] refers(rest, depth as nat, d) <==> refers(
                        s@.skip(i + 1),
                        depth_after(c, depth as nat),
                        d,
                    ) by {}
            }
            if c == '{' {
                depth = depth + 1;
            } else if c == '}' && depth > 0 {
                depth = depth - 1;
            }
            i = i + 1;
        }
    }
    proof {
        assert(s@.skip(n as int).len() == 0);
        assert forall|m: int| top < m <= MAX_ARITY implies !refers(s@, 0, #[trigger] letter_at(m)) by {
            let x = letter_at(m);
            assert(letter_index(x) == m);
            assert(!refers(s@.skip(i as int), depth as nat, x));
            if refers(s@, 0, x) {
                assert(seen.contains(x));
            }
        }
        lemma_highest(s@, MAX_ARITY as nat, top as nat);
    }
    top
}

} // verus!
