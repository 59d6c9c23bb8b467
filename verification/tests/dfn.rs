use uiua_core::dfn::{dfn_arity, MAX_ARITY};

#[test]
fn a_body_without_letters_takes_nothing() {
    assert_eq!(dfn_arity(""), 0);
    assert_eq!(dfn_arity("+ 1 2"), 0);
    assert_eq!(dfn_arity("⊟¯. √4"), 0);
}

#[test]
fn a_body_that_names_only_a_takes_one() {
    assert_eq!(dfn_arity("a"), 1);
    assert_eq!(dfn_arity("×a a"), 1);
    assert_eq!(dfn_arity("(a)"), 1);
}

#[test]
fn the_last_letter_counts_whatever_the_order() {
    assert_eq!(dfn_arity("a b c"), 3);
    assert_eq!(dfn_arity("c a b"), 3);
    assert_eq!(dfn_arity("b c a"), 3);
    assert_eq!(dfn_arity("b a"), 2);
    assert_eq!(dfn_arity("c"), 3);
}

#[test]
fn the_last_letter_of_the_alphabet_takes_all() {
    assert_eq!(dfn_arity("z"), 26);
    assert_eq!(dfn_arity("z"), MAX_ARITY);
    assert_eq!(dfn_arity("+ z a"), 26);
}

#[test]
fn the_quadratic_formula_takes_three() {
    assert_eq!(dfn_arity("÷ ×2a -b ⊟¯. √- ××4a c ⁿ2 b"), 3);
}

#[test]
fn the_fibonacci_dfn_takes_one() {
    assert_eq!(dfn_arity(":⊡~(+ ↬-1a ↬-2a)_(a) <2a"), 1);
}

#[test]
fn longer_words_and_capitals_are_no_arguments() {
    assert_eq!(dfn_arity("ab"), 0);
    assert_eq!(dfn_arity("foo a"), 1);
    assert_eq!(dfn_arity("C B"), 0);
    assert_eq!(dfn_arity("aX"), 0);
}

#[test]
fn literals_and_comments_name_no_arguments() {
    assert_eq!(dfn_arity("\"c\" a"), 1);
    assert_eq!(dfn_arity("'z' b"), 2);
    assert_eq!(dfn_arity("a # uses z"), 1);
    assert_eq!(dfn_arity("# z\nb"), 2);
}

#[test]
fn a_dfn_inside_has_its_own_arguments() {
    assert_eq!(dfn_arity("{b a} a"), 1);
    assert_eq!(dfn_arity("{{c}} a {b} b"), 2);
    assert_eq!(dfn_arity("{a}"), 0);
}

#[test]
fn an_unclosed_literal_ends_the_body() {
    assert_eq!(dfn_arity("a \"b c"), 1);
}
