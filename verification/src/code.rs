//! Code: a text, its tokens, and for every bracket its partner.

use vstd::prelude::*;
use crate::format::FormatError;
use crate::text::chars_of;
use crate::token::{in_text, reports_fault, tokenize, tokens_of, Kind, Token, TokenFault};

verus! {

/// Whether the brackets of `tokens` from the place `i` on are balanced,
/// when the brackets at the places `open` are open there, the innermost last.
/// Where they are not, the answer is the place of the first closing bracket
/// without a partner or, where there is none, of the innermost bracket that
/// is never closed.
pub open spec fn balance(tokens: Seq<Token>, i: nat, open: Seq<usize>) -> Result<(), nat>
    decreases tokens.len() - i,
{
    if i >= tokens.len() {
        if open.len() == 0 {
            Ok(())
        } else {
            Err(open.last() as nat)
        }
    } else {
        match tokens[i as int].kind {
            Kind::Open(_) => balance(tokens, i + 1, open.push(i as usize)),
            Kind::Close(b) => if open.len() > 0 && open.last() < tokens.len() && tokens[open.last() as int].kind
                == Kind::Open(b) {
                balance(tokens, i + 1, open.drop_last())
            } else {
                Err(i)
            },
            _ => balance(tokens, i + 1, open),
        }
    }
}

/// Whether the token number `k` has got its partner: a bracket that opens
/// has the bracket that closes it, and the other way round; any other token
/// is its own partner.
pub open spec fn paired(tokens: Seq<Token>, partner: Seq<usize>, k: int) -> bool {
    match tokens[k].kind {
        Kind::Open(b) => {
            &&& k < partner[k] < tokens.len()
            &&& tokens[partner[k] as int].kind == Kind::Close(b)
            &&& partner[partner[k] as int] == k
        },
        Kind::Close(b) => {
            &&& partner[k] < k
            &&& tokens[partner[k] as int].kind == Kind::Open(b)
            &&& partner[partner[k] as int] == k
        },
        _ => partner[k] == k,
    }
}

/// Whether `partner` pairs the brackets of `tokens`: every bracket has its
/// partner, and what stands between two partners has its partners there.
pub open spec fn matched(tokens: Seq<Token>, partner: Seq<usize>) -> bool {
    &&& partner.len() == tokens.len()
    &&& forall|k: int| 0 <= k < tokens.len() ==> #[trigger] paired(tokens, partner, k)
    &&& forall|a: int, k: int|
        0 <= a < k < tokens.len() && tokens[a].kind is Open && k < partner[a] ==> a
            < #[trigger] partner[k] < #[trigger] partner[a]
}

/// A text that has been read: its characters, its tokens, and the partner of
/// each token.
#[derive(Debug, PartialEq, Eq)]
pub struct Code {
    source: Vec<char>,
    tokens: Vec<Token>,
    partner: Vec<usize>,
}

/// What [`Code`] holds.
pub struct CodeView {
    pub source: Seq<char>,
    pub tokens: Seq<Token>,
    pub partner: Seq<usize>,
}

impl View for Code {
    type V = CodeView;

    closed spec fn view(&self) -> CodeView {
        CodeView { source: self.source@, tokens: self.tokens@, partner: self.partner@ }
    }
}

impl CodeView {
    /// The tokens are those of the text, and the brackets are paired.
    pub open spec fn wf(self) -> bool {
        &&& tokens_of(self.source) == Ok::<Seq<Token>, TokenFault>(self.tokens)
        &&& in_text(self.tokens, self.source.len())
        &&& matched(self.tokens, self.partner)
    }
}

/// While the brackets are being paired: the token number `j`, which has been
/// read, is a bracket that is still open, or has got its partner among the
/// tokens read.
pub closed spec fn settled(tokens: Seq<Token>, partner: Seq<usize>, open: Seq<usize>, i: int, j: int) -> bool {
    open.contains(j as usize) || (paired(tokens, partner, j) && partner[j] < i)
}

/// While the brackets are being paired: where the bracket number `a` has been
/// closed, the token number `j` between it and its partner has its partner there.
pub closed spec fn nested(tokens: Seq<Token>, partner: Seq<usize>, open: Seq<usize>, a: int, j: int) -> bool {
    tokens[a].kind is Open && !open.contains(a as usize) && j < partner[a] ==> a < partner[j]
        < partner[a]
}

/// While the brackets are being paired: the partner of the token number `j`
/// stands behind the open bracket number `m`.
pub closed spec fn above(partner: Seq<usize>, open: Seq<usize>, m: int, j: int) -> bool {
    open[m] < partner[j]
}

/// The partners of the brackets of `tokens`, or the place of the first
/// token that spoils the balance.
pub fn pair(tokens: &Vec<Token>) -> (r: Result<Vec<usize>, usize>)
    ensures
        match r {
            Ok(partner) => balance(tokens@, 0, Seq::empty()) is Ok && matched(tokens@, partner@),
            Err(i) => balance(tokens@, 0, Seq::empty()) == Err::<(), nat>(i as nat) && i
                < tokens@.len(),
        },
{
    let n = tokens.len();
    let mut partner: Vec<usize> = Vec::new();
    let mut k: usize = 0;
    while k < n
        invariant
            k <= n,
            partner@.len() == k,
            forall|j: int| 0 <= j < k ==> #[trigger] partner@[j] == j,
        decreases n - k,
    {
        partner.push(k);
        k = k + 1;
    }
    let mut open: Vec<usize> = Vec::new();
    let mut i: usize = 0;
    while i < n
        invariant
            i <= n,
            n == tokens@.len(),
            partner@.len() == n,
            balance(tokens@, 0, Seq::empty()) == balance(tokens@, i as nat, open@),
            forall|j: int| i <= j < n ==> #[trigger] partner@[j] == j,
            forall|m: int|
                0 <= m < open@.len() ==> (#[trigger] open@[m]) < i && tokens@[open@[m] as int].kind
                    is Open && partner@[open@[m] as int] == open@[m],
            forall|m: int, l: int|
                0 <= m < l < open@.len() ==> (#[trigger] open@[m]) < (#[trigger] open@[l]),
            forall|j: int|
                0 <= j < i ==> #[trigger] settled(tokens@, partner@, open@, i as int, j),
            forall|a: int, j: int|
                0 <= a < j < i ==> #[trigger] nested(tokens@, partner@, open@, a, j),
            forall|m: int, j: int|
                0 <= m < open@.len() && open@[m] < j < i ==> #[trigger] above(
                    partner@,
                    open@,
                    m,
                    j,
                ),
        decreases n - i,
    {
        let ghost was = partner@;
        let ghost stack = open@;
        match tokens[i].kind {
            Kind::Open(_) => {
                open.push(i);
                proof {
                    assert(open@[stack.len() as int] == i);
                    assert forall|j: usize| stack.contains(j) implies #[trigger] open@.contains(
                        j,
                    ) by {
                        let m = choose|m: int| 0 <= m < stack.len() && stack[m] == j;
                        assert(open@[m] == j);
                    }
                    assert forall|j: usize| #[trigger] open@.contains(j) implies stack.contains(j)
                        || j == i by {
                        let m = choose|m: int| 0 <= m < open@.len() && open@[m] == j;
                        if m < stack.len() {
                            assert(stack[m] == j);
                        }
                    }
                    assert forall|j: int| 0 <= j < i + 1 implies #[trigger] settled(
                        tokens@,
                        partner@,
                        open@,
                        i + 1,
                        j,
                    ) by {
                        if j < i {
                            assert(settled(tokens@, was, stack, i as int, j));
                        }
                    }
                    assert forall|a: int, j: int| 0 <= a < j < i + 1 implies #[trigger] nested(
                        tokens@,
                        partner@,
                        open@,
                        a,
                        j,
                    ) by {
                        if j < i {
                            assert(nested(tokens@, was, stack, a, j));
                        } else {
                            assert(settled(tokens@, was, stack, i as int, a));
                        }
                    }
                    assert forall|m: int, j: int|
                        0 <= m < open@.len() && open@[m] < j < i + 1 implies #[trigger] above(
                        partner@,
                        open@,
                        m,
                        j,
                    ) by {
                        if j < i {
                            assert(above(was, stack, m, j));
                        }
                    }
                }
            },
            Kind::Close(b) => {
                let depth = open.len();
                if depth == 0 {
                    return Err(i);
                }
                let top = open[depth - 1];
                if tokens[top].kind != Kind::Open(b) {
                    return Err(i);
                }
                let _ = open.pop();
                partner.set(top, i);
                partner.set(i, top);
                proof {
                    assert(open@ =~= stack.drop_last());
                    assert forall|m: int| 0 <= m < open@.len() implies open@[m] < top by {
                        assert(stack[m] < stack[depth - 1]);
                    }
                    assert forall|j: usize| #[trigger] stack.contains(j) implies open@.contains(j)
                        || j == top by {
                        let m = choose|m: int| 0 <= m < stack.len() && stack[m] == j;
                        if m < depth - 1 {
                            assert(open@[m] == j);
                        }
                    }
                    assert forall|j: usize| #[trigger] open@.contains(j) implies stack.contains(j)
                        && j < top by {
                        let m = choose|m: int| 0 <= m < open@.len() && open@[m] == j;
                        assert(stack[m] == j);
                    }
                    assert forall|j: int| top < j < i implies paired(tokens@, was, j) && top
                        < #[trigger] was[j] < i by {
                        assert(settled(tokens@, was, stack, i as int, j));
                        if stack.contains(j as usize) {
                            let m = choose|m: int| 0 <= m < stack.len() && stack[m] == j as usize;
                            if m < depth - 1 {
                                assert(stack[m] < stack[depth - 1]);
                            }
                        }
                        assert(above(was, stack, depth - 1, j));
                    }
                    assert forall|j: int| 0 <= j < i + 1 implies #[trigger] settled(
                        tokens@,
                        partner@,
                        open@,
                        i + 1,
                        j,
                    ) by {
                        if j == i || j == top {
                        } else {
                            assert(settled(tokens@, was, stack, i as int, j));
                            if !open@.contains(j as usize) {
                                assert(paired(tokens@, was, j));
                                assert(was[j] != top) by {
                                    if was[j] == top {
                                        assert(was[top as int] == top);
                                    }
                                }
                                assert(was[j] != i);
                            }
                        }
                    }
                    assert forall|a: int, j: int| 0 <= a < j < i + 1 implies #[trigger] nested(
                        tokens@,
                        partner@,
                        open@,
                        a,
                        j,
                    ) by {
                        if tokens@[a].kind is Open && !open@.contains(a as usize) && j
                            < partner@[a] {
                            if a == top {
                                assert(top < was[j] < i);
                            } else {
                                assert(settled(tokens@, was, stack, i as int, a));
                                assert(paired(tokens@, was, a) && was[a] < i);
                                assert(was[a] == partner@[a]);
                                assert(nested(tokens@, was, stack, a, j));
                                if j == top {
                                    assert(a < was[j] < was[a]);
                                    assert(false);
                                }
                            }
                        }
                    }
                    assert forall|m: int, j: int|
                        0 <= m < open@.len() && open@[m] < j < i + 1 implies #[trigger] above(
                        partner@,
                        open@,
                        m,
                        j,
                    ) by {
                        assert(stack[m] < stack[depth - 1]);
                        if j != i && j != top {
                            assert(above(was, stack, m, j));
                        }
                    }
                }
            },
            _ => {
                proof {
                    assert forall|j: int| 0 <= j < i + 1 implies #[trigger] settled(
                        tokens@,
                        partner@,
                        open@,
                        i + 1,
                        j,
                    ) by {
                        if j < i {
                            assert(settled(tokens@, was, stack, i as int, j));
                        }
                    }
                    assert forall|a: int, j: int| 0 <= a < j < i + 1 implies #[trigger] nested(
                        tokens@,
                        partner@,
                        open@,
                        a,
                        j,
                    ) by {
                        if j < i {
                            assert(nested(tokens@, was, stack, a, j));
                        } else {
                            assert(settled(tokens@, was, stack, i as int, a));
                        }
                    }
                    assert forall|m: int, j: int|
                        0 <= m < open@.len() && open@[m] < j < i + 1 implies #[trigger] above(
                        partner@,
                        open@,
                        m,
                        j,
                    ) by {
                        if j < i {
                            assert(above(was, stack, m, j));
                        }
                    }
                }
            },
        }
        i = i + 1;
    }
    let depth = open.len();
    if depth > 0 {
        return Err(open[depth - 1]);
    }
    proof {
        assert forall|k: int| 0 <= k < tokens@.len() implies #[trigger] paired(
            tokens@,
            partner@,
            k,
        ) by {
            assert(settled(tokens@, partner@, open@, i as int, k));
        }
        assert forall|a: int, k: int|
            0 <= a < k < tokens@.len() && tokens@[a].kind is Open && k < partner@[a] implies a
            < #[trigger] partner@[k] < #[trigger] partner@[a] by {
            assert(nested(tokens@, partner@, open@, a, k));
        }
    }
    Ok(partner)
}

/// What reading the text `source` gives: its code, or its first fault.
pub open spec fn read(source: Seq<char>) -> Result<Seq<Token>, TokenFault> {
    tokens_of(source)
}

impl Code {
    /// Whether the text `source` can be read: it has tokens, and its
    /// brackets are balanced.
    pub open spec fn new_spec(source: Seq<char>) -> bool {
        match tokens_of(source) {
            Ok(tokens) => balance(tokens, 0, Seq::empty()) is Ok,
            Err(_) => false,
        }
    }

    /// The error `e` says why the text `source` cannot be read: it names the
    /// first quoted literal that is not closed or the first character that
    /// means nothing; in a text without either, the first bracket without
    /// its partner.
    pub open spec fn refused(e: FormatError, source: Seq<char>) -> bool {
        match tokens_of(source) {
            Ok(tokens) => match balance(tokens, 0, Seq::empty()) {
                Ok(_) => false,
                Err(i) => e == (FormatError::Unbalanced { position: tokens[i as int].start }),
            },
            Err(f) => reports_fault(e, f),
        }
    }

    /// The tokens are those of the text, and the brackets are paired.
    #[verifier::type_invariant]
    pub closed spec fn inv(&self) -> bool {
        self@.wf()
    }

    /// Reads the text `source`.
    ///
    /// Fails at the first quoted literal that is not closed and at the first
    /// character that means nothing; in a text without either, at the first
    /// bracket without its partner.
    pub fn new(source: &str) -> (r: Result<Code, FormatError>)
        ensures
            match tokens_of(source@) {
                Ok(tokens) => match balance(tokens, 0, Seq::empty()) {
                    Ok(_) => r is Ok && r->Ok_0@.wf() && r->Ok_0@.source == source@,
                    Err(i) => r == Err::<Code, FormatError>(
                        FormatError::Unbalanced { position: tokens[i as int].start },
                    ),
                },
                Err(f) => r is Err && reports_fault(r->Err_0, f),
            },
            r is Ok <==> Self::new_spec(source@),
            r is Err ==> Self::refused(r->Err_0, source@),
    {
        let chars = chars_of(source);
        let tokens = match tokenize(&chars) {
            Ok(tokens) => tokens,
            Err(e) => {
                return Err(e);
            },
        };
        match pair(&tokens) {
            Ok(partner) => Ok(Code { source: chars, tokens, partner }),
            Err(i) => Err(FormatError::Unbalanced { position: tokens[i].start }),
        }
    }

    /// The characters of the text.
    pub fn source(&self) -> (r: &Vec<char>)
        ensures
            r@ == self@.source,
            self@.wf(),
    {
        proof {
            use_type_invariant(self);
        }
        &self.source
    }

    /// The tokens of the text.
    pub fn tokens(&self) -> (r: &Vec<Token>)
        ensures
            r@ == self@.tokens,
            self@.wf(),
    {
        proof {
            use_type_invariant(self);
        }
        &self.tokens
    }

    /// The place of the partner of the token number `i`.
    pub(crate) fn partner(&self, i: usize) -> (r: usize)
        requires
            i < self@.tokens.len(),
        ensures
            r == self@.partner[i as int],
            r < self@.tokens.len(),
            self@.wf(),
            paired(self@.tokens, self@.partner, i as int),
    {
        proof {
            use_type_invariant(self);
            assert(paired(self@.tokens, self@.partner, i as int));
        }
        self.partner[i]
    }
}

} // verus!
