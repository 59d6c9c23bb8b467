use uiua_core::format::FormatError;

fn formatted(source: &str) -> Result<String, FormatError> {
    uiua_core::format::format(source)
}

fn ok(source: &str) -> String {
    formatted(source).unwrap()
}

#[test]
fn ascii_spellings_become_glyphs() {
    assert_eq!(ok("%6 *3 8"), "÷6 ×3 8");
    assert_eq!(ok("* `1 `2"), "× ¯1 ¯2");
    assert_eq!(ok("+ `1 `2"), "+ ¯1 ¯2");
    assert_eq!(ok("!=1 2 <=3 4 >=5 6"), "≠1 2 ≤3 4 ≥5 6");
}

#[test]
fn single_comparison_signs_stay() {
    assert_eq!(ok("<2 5"), "<2 5");
    assert_eq!(ok("=2 5"), "=2 5");
    assert_eq!(ok("(=2 2)"), "(=2 2)");
    assert_eq!(ok("< >"), "< >");
}

#[test]
fn names_become_glyphs() {
    assert_eq!(ok("max sqrt 10 mod 10 pow 2 8"), "↥ √ 10 ◿ 10 ⁿ 2 8");
    assert_eq!(ok("max sqrt 2 mod 10 abs `31"), "↥ √ 2 ◿ 10 ⌵ ¯31");
    assert_eq!(ok("add subtract multiply divide"), "+ - × ÷");
}

#[test]
fn a_name_needs_only_enough_letters() {
    assert_eq!(ok("(cei ceil ceili ceilin ceiling)"), "(⌈ ⌈ ⌈ ⌈ ⌈)");
}

#[test]
fn a_whole_name_wins_over_longer_names() {
    assert_eq!(ok("rank"), "∴");
    assert_eq!(ok("round rows"), "⁅ ≡");
}

#[test]
fn ambiguous_names_are_errors() {
    assert_eq!(
        formatted("1 re 2"),
        Err(FormatError::Ambiguous { name: "re".to_string(), position: 2 })
    );
    assert_eq!(
        formatted("× ro"),
        Err(FormatError::Ambiguous { name: "ro".to_string(), position: 2 })
    );
    assert!(matches!(formatted("less"), Err(FormatError::Ambiguous { .. })));
}

#[test]
fn a_beginning_shared_with_a_built_in_without_glyph_is_an_error() {
    assert_eq!(
        formatted("ran"),
        Err(FormatError::Ambiguous { name: "ran".to_string(), position: 0 })
    );
    assert_eq!(
        formatted("+ 1 ra"),
        Err(FormatError::Ambiguous { name: "ra".to_string(), position: 4 })
    );
    assert_eq!(ok("rank"), "∴");
    assert_eq!(ok("rang"), "rang");
}

#[test]
fn a_beginning_of_one_name_without_a_glyph_stays() {
    assert_eq!(ok("rand"), "rand");
    assert_eq!(ok("use"), "use");
    assert_eq!(ok("print"), "print");
    assert_eq!(ok("import"), "import");
    assert_eq!(ok("us"), "us");
    assert_eq!(ok("prin"), "prin");
    assert_eq!(ok("impo"), "impo");
    assert_eq!(ok("print rev 1_2"), "print ⇌ 1_2");
}

#[test]
fn unclosed_literals_are_errors() {
    assert_eq!(formatted("+ 1 \"abc"), Err(FormatError::Incomplete { position: 4 }));
    assert_eq!(formatted("\"abc\ndef\""), Err(FormatError::Incomplete { position: 0 }));
    assert_eq!(formatted("'a"), Err(FormatError::Incomplete { position: 0 }));
    assert_eq!(formatted("\"abc\\"), Err(FormatError::Incomplete { position: 0 }));
}

#[test]
fn the_first_fault_is_reported() {
    assert_eq!(
        formatted("re \"abc"),
        Err(FormatError::Ambiguous { name: "re".to_string(), position: 0 })
    );
    assert_eq!(formatted("\"abc\nre"), Err(FormatError::Incomplete { position: 0 }));
}

#[test]
fn unknown_words_single_letters_and_capitals_stay() {
    assert_eq!(ok("foo"), "foo");
    assert_eq!(ok("{b a} 1 2"), "{b a} 1 2");
    assert_eq!(ok("Part ← 5\n×2 Part"), "Part ← 5\n×2 Part");
    assert_eq!(ok("Max Sqrt"), "Max Sqrt");
    assert_eq!(ok("numone NuMtWo"), "numone NuMtWo");
}

#[test]
fn names_without_a_glyph_stay() {
    assert_eq!(ok("use \"twin\" mymodule"), "use \"twin\" mymodule");
    assert_eq!(ok("import \"example.ua\""), "import \"example.ua\"");
    assert_eq!(ok("print rand"), "print rand");
}

#[test]
fn literals_and_comments_pass_through() {
    assert_eq!(ok("\"max * %\""), "\"max * %\"");
    assert_eq!(ok("'*'"), "'*'");
    assert_eq!(ok("# max * = 5\nmax"), "# max * = 5\n↥");
    assert_eq!(ok("\"a \\\" max\" max"), "\"a \\\" max\" ↥");
    assert_eq!(ok("# Click Run to format!\n%6 *3 8"), "# Click Run to format!\n÷6 ×3 8");
}

#[test]
fn definitions_get_the_arrow() {
    assert_eq!(ok("a = 3\nb = 5\n+ a b"), "a ← 3\nb ← 5\n+ a b");
    assert_eq!(ok("foo=5"), "foo←5");
    assert_eq!(ok("  Foo\t= 5"), "  Foo\t← 5");
    assert_eq!(ok("x = = 1 2"), "x ← = 1 2");
}

#[test]
fn a_built_in_cannot_be_defined() {
    assert_eq!(ok("part = 5"), "⊜ = 5");
    assert_eq!(ok("sqrt = 5"), "√ = 5");
}

#[test]
fn equals_sign_elsewhere_stays() {
    assert_eq!(ok("= 2 2"), "= 2 2");
    assert_eq!(ok("a b = 2"), "a b = 2");
    assert_eq!(ok("1 = 2"), "1 = 2");
}

#[test]
fn a_name_is_another_way_to_type_a_sign() {
    assert_eq!(ok("x equals 3"), "x ← 3");
    assert_eq!(ok("<equals"), "≤");
}

#[test]
fn formatted_text_must_read_as_code() {
    assert_eq!(formatted("[1 2"), Err(FormatError::Unbalanced { position: 0 }));
    assert_eq!(formatted("max 1 2)"), Err(FormatError::Unbalanced { position: 5 }));
    assert_eq!(formatted("(sqrt]"), Err(FormatError::Unbalanced { position: 2 }));
    assert_eq!(formatted("1 @ 2"), Err(FormatError::Unknown { position: 2 }));
    assert_eq!(formatted("sqrt !"), Err(FormatError::Unknown { position: 2 }));
    assert_eq!(formatted("sqrt 'ab'"), Err(FormatError::Incomplete { position: 2 }));
    assert_eq!(ok("[1 \"]\" 2] # )"), "[1 \"]\" 2] # )");
    assert_eq!(ok("😀 = \"happy\""), "😀 = \"happy\"");
}

#[test]
fn empty_text_formats_to_empty_text() {
    assert_eq!(ok(""), "");
}

#[test]
fn formatting_twice_changes_nothing() {
    let sources = [
        "%6 *3 8",
        "max sqrt 10 mod 10 pow 2 8",
        "a = 3\nb = 5\n+ a b",
        "part = 5",
        "x equals 3",
        "<equals",
        "foo != 3 # re\n\"re\" 'r' <",
        "Quadratic = {÷ ×2a -b ⊟¯. √- ××4a c ⁿ2 b}\nQuadratic 1 2 0",
        "---\nPlusFive ← +5\nTwin ← ⊟.\nPlusFive_Twin\n---\nmymodule ←\ntwin ← use \"twin\" mymodule",
        "\"abc", 
    ];
    for source in sources {
        if let Ok(once) = formatted(source) {
            assert_eq!(formatted(&once), Ok(once.clone()));
        }
    }
}
