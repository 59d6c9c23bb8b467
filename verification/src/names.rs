//! Names of bindings: compared without regard to case, and classified by
//! their first character.

use vstd::prelude::*;
use crate::text::chars_of;

verus! {

/// An upper-case ASCII letter.
pub open spec fn is_upper(c: char) -> bool {
    'A' <= c && c <= 'Z'
}

/// An ASCII letter or digit.
pub open spec fn is_alphanumeric(c: char) -> bool {
    ('a' <= c && c <= 'z') || ('A' <= c && c <= 'Z') || ('0' <= c && c <= '9')
}

/// The lower-case form of an ASCII letter; any other character is its own.
pub open spec fn lower(c: char) -> char {
    if is_upper(c) {
        (c as int + 32) as char
    } else {
        c
    }
}

/// The form of a name under which it is looked up: every letter in lower case.
pub open spec fn fold(name: Seq<char>) -> Seq<char> {
    name.map_values(|c: char| lower(c))
}

/// Two names that differ only in case are one name.
pub open spec fn same_name(a: Seq<char>, b: Seq<char>) -> bool {
    fold(a) == fold(b)
}

/// Whether a binding with the name `name` binds a function rather than a
/// value: it does where the name begins with an upper-case letter or with a
/// character that is neither letter nor digit.
pub open spec fn names_function(name: Seq<char>) -> bool {
    name.len() > 0 && (is_upper(name[0]) || !is_alphanumeric(name[0]))
}

/// Folding a folded name changes nothing.
pub proof fn lemma_fold_idempotent(name: Seq<char>)
    ensures
        fold(fold(name)) == fold(name),
{
    assert(fold(fold(name)) =~= fold(name));
}

/// The lower-case form of `c`.
pub fn lower_case(c: char) -> (r: char)
    ensures
        r == lower(c),
{
    if 'A' <= c && c <= 'Z' {
        ((c as u8) + 32) as char
    } else {
        c
    }
}

/// The form of `name` under which it is looked up.
pub fn fold_case(name: &str) -> (r: Vec<char>)
    ensures
        r@ == fold(name@),
{
    let s = chars_of(name);
    let mut r: Vec<char> = Vec::new();
    let mut i: usize = 0;
    while i < s.len()
        invariant
            i <= s.len(),
            s@ == name@,
            r@.len() == i,
            forall|k: int| 0 <= k < i ==> #[trigger] r@[k] == lower(s@[k]),
        decreases s.len() - i,
    {
        r.push(lower_case(s[i]));
        i = i + 1;
    }
    assert(r@ =~= fold(name@));
    r
}

/// Whether a binding with the name `name` binds a function.
pub fn binds_function(name: &str) -> (r: bool)
    ensures
        r == names_function(name@),
{
    let s = chars_of(name);
    if s.len() == 0 {
        return false;
    }
    let c = s[0];
    let upper = 'A' <= c && c <= 'Z';
    let alphanumeric = ('a' <= c && c <= 'z') || upper || ('0' <= c && c <= '9');
    upper || !alphanumeric
}

/// Whether two sequences of characters are the same.
pub fn same_chars(a: &Vec<char>, b: &Vec<char>) -> (r: bool)
    ensures
        r == (a@ == b@),
{
    if a.len() != b.len() {
        return false;
    }
    let mut i: usize = 0;
    while i < a.len()
        invariant
            i <= a.len(),
            a.len() == b.len(),
            forall|k: int| 0 <= k < i ==> a@[k] == b@[k],
        decreases a.len() - i,
    {
        if a[i] != b[i] {
            return false;
        }
        i = i + 1;
    }
    assert(a@ =~= b@);
    true
}

} // verus!
