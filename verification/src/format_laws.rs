//! Laws of formatting: a word that begins the names of two built-ins is
//! refused, and formatting a formatted text changes nothing.

use vstd::prelude::*;
use crate::format::{
    after_blank, after_letter, candidate_test, candidates, defines, digraph, format_text,
    has_upper, is_blank, is_candidate, is_named, monograph, name_glyphs, named, named_test,
    prepend, resolve, typed_glyphs, Fault, LineState, Resolution,
};
use crate::seqs::lemma_filter_two;
use crate::lex::{
    is_letter, is_plain, is_quote, lemma_line_len, lemma_line_stable, lemma_quote_len,
    lemma_quote_stable, lemma_word_len, lemma_word_stable, lexeme, line_len, quote_len, word_len,
    Lexeme,
};
use crate::primitive::Primitive;

verus! {

/// A character that both passes hand on as it is, whatever stands around it.
pub open spec fn is_inert(c: char) -> bool {
    &&& is_plain(c)
    &&& c != '\n'
    &&& !is_blank(c)
    &&& c != '='
    &&& digraph(c) is None
    &&& monograph(c) is None
}

/// No glyph of a built-in is a letter, a quote, the sign of a comment, a
/// blank or a line break.
pub proof fn lemma_glyph_plain(p: Primitive)
    ensures
        match p.glyph() {
            Some(g) => is_plain(g) && g != '\n' && !is_blank(g),
            None => true,
        },
{
}

/// A word is replaced by nothing but the glyph of a built-in.
pub proof fn lemma_resolve_glyph(word: Seq<char>)
    ensures
        match resolve(word) {
            Resolution::Glyph(g) => is_plain(g) && g != '\n' && !is_blank(g),
            _ => true,
        },
{
    if word.len() < 2 || has_upper(word) {
    } else if named(word).len() > 0 {
        lemma_glyph_plain(named(word)[0]);
    } else if candidates(word).len() == 1 {
        lemma_glyph_plain(candidates(word)[0]);
    }
}

/// A word of two or more lower-case letters that is the name of no built-in
/// and begins the names of two built-ins is ambiguous, whether or not the two
/// have glyphs: no glyph is chosen for it, and the word alone cannot be
/// formatted.
pub proof fn lemma_shared_beginning_refused(word: Seq<char>, p: Primitive, q: Primitive)
    requires
        word.len() >= 2,
        forall|j: int| 0 <= j < word.len() ==> is_letter(#[trigger] word[j]),
        !has_upper(word),
        forall|r: Primitive| !is_named(r, word),
        p != q,
        is_candidate(p, word),
        is_candidate(q, word),
    ensures
        resolve(word) is Ambiguous,
        format_text(word) == Err::<Seq<char>, Fault>(Fault::Ambiguous { rest: word.len() }),
{
    let table = Primitive::table();
    if named(word).len() > 0 {
        table.lemma_filter_pred(named_test(word), 0);
        assert(is_named(named(word)[0], word));
    }
    Primitive::lemma_table_complete(p);
    Primitive::lemma_table_complete(q);
    assert(candidate_test(word)(table[p.index()]));
    assert(candidate_test(word)(table[q.index()]));
    if p.index() < q.index() {
        lemma_filter_two(table, p.index(), q.index(), candidate_test(word));
    } else {
        lemma_filter_two(table, q.index(), p.index(), candidate_test(word));
    }
    lemma_names_word(word, Seq::empty());
    assert(word + Seq::<char>::empty() =~= word);
}

/// The lexeme that a text begins with is not empty and ends within the text.
pub proof fn lemma_lexeme_len(s: Seq<char>)
    requires
        s.len() > 0,
    ensures
        match lexeme(s) {
            Lexeme::Word(k) => 0 < k <= s.len() && is_letter(s[0]),
            Lexeme::Literal(k) => 0 < k <= s.len() && (is_quote(s[0]) || s[0] == '#'),
            Lexeme::Broken => is_quote(s[0]),
            Lexeme::Symbol => is_plain(s[0]),
        },
{
    lemma_word_len(s);
    lemma_line_len(s);
    if is_quote(s[0]) && quote_len(s, s[0], 1) is Some {
        lemma_quote_len(s, s[0], 1);
    }
}

/// The first pass on a plain character followed by a text.
proof fn lemma_names_plain(c: char, z: Seq<char>)
    requires
        is_plain(c),
    ensures
        name_glyphs(seq![c] + z) == prepend(seq![c], name_glyphs(z)),
{
    let s = seq![c] + z;
    assert(s[0] == c);
    assert(s.skip(1) =~= z);
}

/// The first pass on a word followed by a text that begins with no letter.
proof fn lemma_names_word(w: Seq<char>, z: Seq<char>)
    requires
        w.len() > 0,
        forall|j: int| 0 <= j < w.len() ==> is_letter(#[trigger] w[j]),
        z.len() > 0 ==> !is_letter(z[0]),
    ensures
        name_glyphs(w + z) == match resolve(w) {
            Resolution::Keep => prepend(w, name_glyphs(z)),
            Resolution::Glyph(g) => prepend(seq![g], name_glyphs(z)),
            Resolution::Ambiguous => Err(Fault::Ambiguous { rest: (w + z).len() }),
        },
{
    let s = w + z;
    lemma_word_stable(w, z);
    assert(s[0] == w[0]);
    assert(s.take(w.len() as int) =~= w);
    assert(s.skip(w.len() as int) =~= z);
}

/// A literal stays the lexeme it is when the text behind it changes, as
/// long as a comment is still followed by a line break or by nothing.
proof fn lemma_literal_stable(s: Seq<char>, z: Seq<char>)
    requires
        s.len() > 0,
        lexeme(s) is Literal,
        s[0] == '#' && z.len() > 0 ==> z[0] == '\n',
    ensures
        ({
            let k = lexeme(s)->Literal_0;
            let t = s.take(k as int) + z;
            &&& 0 < k <= s.len()
            &&& lexeme(t) == lexeme(s)
            &&& t[0] == s[0]
            &&& t.take(k as int) == s.take(k as int)
            &&& t.skip(k as int) == z
            &&& is_quote(s[0]) ==> quote_len(t, s[0], 1) == Some(k)
            &&& s[0] == '#' ==> line_len(t) == k
        }),
{
    lemma_lexeme_len(s);
    let k = lexeme(s)->Literal_0;
    let t = s.take(k as int) + z;
    assert(t[0] == s[0]);
    assert(t.take(k as int) =~= s.take(k as int));
    assert(t.skip(k as int) =~= z);
    if is_quote(s[0]) {
        lemma_quote_stable(s, s[0], 1, z);
    } else {
        lemma_line_len(s);
        lemma_line_stable(s.take(k as int), z);
    }
}

/// What the first pass makes of a text begins as the text does, unless the
/// text begins with a word.
pub proof fn lemma_names_first(s: Seq<char>)
    requires
        name_glyphs(s) is Ok,
    ensures
        s.len() == 0 <==> name_glyphs(s)->Ok_0.len() == 0,
        s.len() > 0 && !is_letter(s[0]) ==> name_glyphs(s)->Ok_0[0] == s[0],
{
    if s.len() > 0 {
        lemma_lexeme_len(s);
    }
}

/// The first pass changes nothing in what it has made.
pub proof fn lemma_names_idempotent(s: Seq<char>)
    requires
        name_glyphs(s) is Ok,
    ensures
        name_glyphs(name_glyphs(s)->Ok_0) == name_glyphs(s),
    decreases s.len(),
{
    if s.len() > 0 {
        lemma_lexeme_len(s);
        let y = name_glyphs(s)->Ok_0;
        match lexeme(s) {
            Lexeme::Word(k) => {
                let w = s.take(k as int);
                let rest = s.skip(k as int);
                let z = name_glyphs(rest)->Ok_0;
                lemma_names_idempotent(rest);
                lemma_names_first(rest);
                lemma_word_len(s);
                if rest.len() > 0 {
                    assert(rest[0] == s[k as int]);
                }
                match resolve(w) {
                    Resolution::Keep => {
                        assert(y == w + z);
                        lemma_names_word(w, z);
                    },
                    Resolution::Glyph(g) => {
                        assert(y == seq![g] + z);
                        lemma_resolve_glyph(w);
                        lemma_names_plain(g, z);
                    },
                    Resolution::Ambiguous => {},
                }
            },
            Lexeme::Literal(k) => {
                let rest = s.skip(k as int);
                let z = name_glyphs(rest)->Ok_0;
                lemma_names_idempotent(rest);
                lemma_names_first(rest);
                lemma_line_len(s);
                if rest.len() > 0 && s[0] == '#' {
                    assert(rest[0] == s[k as int]);
                }
                lemma_literal_stable(s, z);
                assert(y == s.take(k as int) + z);
            },
            Lexeme::Broken => {},
            Lexeme::Symbol => {
                let z = name_glyphs(s.skip(1))->Ok_0;
                lemma_names_idempotent(s.skip(1));
                assert(y == seq![s[0]] + z);
                lemma_names_plain(s[0], z);
            },
        }
    }
}

/// What the second pass makes of a text is empty only where the text is, and
/// begins with a letter, a line break or `=` only where the text does.
pub proof fn lemma_typed_first(s: Seq<char>, st: LineState)
    ensures
        s.len() == 0 <==> typed_glyphs(s, st).len() == 0,
        s.len() > 0 ==> {
            let t = typed_glyphs(s, st);
            &&& is_letter(s[0]) ==> t[0] == s[0]
            &&& !is_letter(s[0]) ==> !is_letter(t[0])
            &&& s[0] == '\n' ==> t[0] == '\n'
            &&& t[0] == '=' ==> s[0] == '='
        },
{
    if s.len() > 0 {
        let c = s[0];
        if is_quote(c) && quote_len(s, c, 1) is Some {
            lemma_quote_len(s, c, 1);
        }
        if c == '#' {
            lemma_line_len(s);
        }
    }
}

/// The second pass on an inert character followed by a text.
proof fn lemma_typed_inert(d: char, z: Seq<char>, st: LineState)
    requires
        is_inert(d),
    ensures
        typed_glyphs(seq![d] + z, st) == seq![d] + typed_glyphs(z, LineState::Rest),
{
    let s = seq![d] + z;
    assert(s[0] == d);
    assert(s.skip(1) =~= z);
}

/// The second pass on a literal followed by a text.
proof fn lemma_typed_literal(s: Seq<char>, z: Seq<char>, st: LineState)
    requires
        s.len() > 0,
        lexeme(s) is Literal,
        s[0] == '#' && z.len() > 0 ==> z[0] == '\n',
    ensures
        typed_glyphs(s.take(lexeme(s)->Literal_0 as int) + z, st) == s.take(
            lexeme(s)->Literal_0 as int,
        ) + typed_glyphs(z, LineState::Rest),
{
    lemma_literal_stable(s, z);
}

/// The second pass changes nothing in what it has made.
pub proof fn lemma_typed_idempotent(s: Seq<char>, st: LineState)
    ensures
        typed_glyphs(typed_glyphs(s, st), st) == typed_glyphs(s, st),
    decreases s.len(),
{
    if s.len() > 0 {
        let c = s[0];
        let out = typed_glyphs(s, st);
        if c == '\n' {
            let t = typed_glyphs(s.skip(1), LineState::Start);
            lemma_typed_idempotent(s.skip(1), LineState::Start);
            assert(out[0] == c);
            assert(out.skip(1) =~= t);
        } else if is_letter(c) {
            let t = typed_glyphs(s.skip(1), after_letter(st));
            lemma_typed_idempotent(s.skip(1), after_letter(st));
            assert(out[0] == c);
            assert(out.skip(1) =~= t);
        } else if is_blank(c) {
            let t = typed_glyphs(s.skip(1), after_blank(st));
            lemma_typed_idempotent(s.skip(1), after_blank(st));
            assert(out[0] == c);
            assert(out.skip(1) =~= t);
        } else if c == '=' && defines(st) {
            let t = typed_glyphs(s.skip(1), LineState::Rest);
            lemma_typed_idempotent(s.skip(1), LineState::Rest);
            lemma_typed_inert('←', t, st);
        } else if is_quote(c) {
            match quote_len(s, c, 1) {
                Some(k) => {
                    lemma_quote_len(s, c, 1);
                    let rest = s.skip(k as int);
                    let t = typed_glyphs(rest, LineState::Rest);
                    lemma_typed_idempotent(rest, LineState::Rest);
                    lemma_typed_literal(s, t, st);
                },
                None => {},
            }
        } else if c == '#' {
            lemma_line_len(s);
            let k = line_len(s);
            let rest = s.skip(k as int);
            let t = typed_glyphs(rest, LineState::Rest);
            lemma_typed_idempotent(rest, LineState::Rest);
            lemma_typed_first(rest, LineState::Rest);
            if rest.len() > 0 {
                assert(rest[0] == s[k as int]);
            }
            lemma_typed_literal(s, t, st);
        } else if digraph(c) is Some && s.len() > 1 && s[1] == '=' {
            let t = typed_glyphs(s.skip(2), LineState::Rest);
            lemma_typed_idempotent(s.skip(2), LineState::Rest);
            lemma_typed_inert(digraph(c).unwrap(), t, st);
        } else if monograph(c) is Some {
            let t = typed_glyphs(s.skip(1), LineState::Rest);
            lemma_typed_idempotent(s.skip(1), LineState::Rest);
            lemma_typed_inert(monograph(c).unwrap(), t, st);
        } else {
            let rest = s.skip(1);
            let t = typed_glyphs(rest, LineState::Rest);
            lemma_typed_idempotent(rest, LineState::Rest);
            lemma_typed_first(rest, LineState::Rest);
            assert(out == seq![c] + t);
            assert(out[0] == c);
            assert(out.skip(1) =~= t);
            if rest.len() > 0 {
                assert(rest[0] == s[1]);
                assert(out[1] == t[0]);
            }
        }
    }
}

/// The second pass hands on the letters that a text begins with.
proof fn lemma_typed_word(s: Seq<char>, st: LineState, k: nat)
    requires
        0 < k <= word_len(s),
    ensures
        k <= s.len(),
        typed_glyphs(s, st) == s.take(k as int) + typed_glyphs(s.skip(k as int), after_letter(st)),
    decreases k,
{
    lemma_word_len(s);
    if k == 1 {
        assert(s.take(1) =~= seq![s[0]]);
    } else {
        let rest = s.drop_first();
        assert(rest =~= s.skip(1));
        lemma_typed_word(rest, after_letter(st), (k - 1) as nat);
        assert(s.take(k as int) =~= seq![s[0]] + rest.take(k - 1));
        assert(rest.skip(k - 1) =~= s.skip(k as int));
        assert(after_letter(after_letter(st)) == after_letter(st));
    }
}

/// If the first pass hands on `head + tail` as it is, and hands on `head`
/// before what it makes of `tail`, it hands on `tail` as it is.
proof fn lemma_cancel(head: Seq<char>, tail: Seq<char>, made: Result<Seq<char>, Fault>)
    requires
        prepend(head, made) == Ok::<Seq<char>, Fault>(head + tail),
    ensures
        made == Ok::<Seq<char>, Fault>(tail),
{
    let z = made->Ok_0;
    assert((head + z).skip(head.len() as int) =~= z);
    assert((head + tail).skip(head.len() as int) =~= tail);
}

/// What the first pass has made, the second pass turns into something that
/// the first pass would hand on as it is.
pub proof fn lemma_typed_keeps_names(y: Seq<char>, st: LineState)
    requires
        name_glyphs(y) == Ok::<Seq<char>, Fault>(y),
    ensures
        name_glyphs(typed_glyphs(y, st)) == Ok::<Seq<char>, Fault>(typed_glyphs(y, st)),
    decreases y.len(),
{
    if y.len() > 0 {
        lemma_lexeme_len(y);
        let c = y[0];
        let out = typed_glyphs(y, st);
        match lexeme(y) {
            Lexeme::Word(k) => {
                let w = y.take(k as int);
                let rest = y.skip(k as int);
                assert(y =~= w + rest);
                lemma_word_len(y);
                lemma_resolve_glyph(w);
                match resolve(w) {
                    Resolution::Keep => {},
                    Resolution::Glyph(g) => {
                        let z = name_glyphs(rest)->Ok_0;
                        assert((seq![g] + z)[0] == g);
                        assert(false);
                    },
                    Resolution::Ambiguous => {
                        assert(false);
                    },
                }
                lemma_cancel(w, rest, name_glyphs(rest));
                let st2 = after_letter(st);
                lemma_typed_word(y, st, k);
                let t = typed_glyphs(rest, st2);
                lemma_typed_keeps_names(rest, st2);
                lemma_typed_first(rest, st2);
                if rest.len() > 0 {
                    assert(rest[0] == y[k as int]);
                }
                lemma_names_word(w, t);
            },
            Lexeme::Literal(k) => {
                let lit = y.take(k as int);
                let rest = y.skip(k as int);
                assert(y =~= lit + rest);
                lemma_cancel(lit, rest, name_glyphs(rest));
                let t = typed_glyphs(rest, LineState::Rest);
                lemma_typed_keeps_names(rest, LineState::Rest);
                lemma_typed_first(rest, LineState::Rest);
                lemma_line_len(y);
                if rest.len() > 0 && c == '#' {
                    assert(rest[0] == y[k as int]);
                }
                lemma_literal_stable(y, t);
                assert(out == lit + t);
            },
            Lexeme::Broken => {},
            Lexeme::Symbol => {
                let rest = y.skip(1);
                assert(y =~= seq![c] + rest);
                lemma_cancel(seq![c], rest, name_glyphs(rest));
                if digraph(c) is Some && y.len() > 1 && y[1] == '=' && !(c == '=' && defines(st)) {
                    let after = y.skip(2);
                    assert(rest[0] == '=');
                    assert(rest.skip(1) =~= after);
                    assert(rest =~= seq!['='] + after);
                    lemma_cancel(seq!['='], after, name_glyphs(after));
                    let t = typed_glyphs(after, LineState::Rest);
                    lemma_typed_keeps_names(after, LineState::Rest);
                    lemma_names_plain(digraph(c).unwrap(), t);
                } else {
                    let st2 = if c == '\n' {
                        LineState::Start
                    } else if is_blank(c) {
                        after_blank(st)
                    } else {
                        LineState::Rest
                    };
                    let d = if c == '=' && defines(st) {
                        '←'
                    } else if monograph(c) is Some && !is_blank(c) && c != '\n' {
                        monograph(c).unwrap()
                    } else {
                        c
                    };
                    let t = typed_glyphs(rest, st2);
                    lemma_typed_keeps_names(rest, st2);
                    assert(out == seq![d] + t);
                    lemma_names_plain(d, t);
                }
            },
        }
    }
}

/// Formatting is idempotent: the formatted form of a text is its own
/// formatted form.
pub proof fn lemma_format_idempotent(source: Seq<char>)
    requires
        format_text(source) is Ok,
    ensures
        format_text(format_text(source)->Ok_0) == format_text(source),
{
    let named = name_glyphs(source)->Ok_0;
    lemma_names_idempotent(source);
    lemma_typed_keeps_names(named, LineState::Start);
    lemma_typed_idempotent(named, LineState::Start);
    assert(crate::format::glyphs(format_text(source)->Ok_0) == crate::format::glyphs(source));
}

/// The ASCII spellings that the second pass replaces are those of the table
/// of built-ins: a built-in with a spelling of one character is typed as that
/// character, and one with a spelling of two as its first character and `=`.
pub proof fn lemma_spellings(p: Primitive)
    requires
        p.ascii_text() is Some,
    ensures
        ({
            let typed = p.ascii_text().unwrap();
            &&& p.glyph() is Some
            &&& typed.len() == 1 || typed.len() == 2
            &&& typed.len() == 1 ==> monograph(typed[0]) == p.glyph()
            &&& typed.len() == 2 ==> digraph(typed[0]) == p.glyph() && typed[1] == '='
        }),
{
    reveal_strlit("!=");
    reveal_strlit("<=");
    reveal_strlit(">=");
    reveal_strlit("*");
    reveal_strlit("%");
}

} // verus!
