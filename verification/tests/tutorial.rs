use uiua_core::primitive::{IoOp, Primitive};
use uiua_core::text::{chars_of, string_of};
use uiua_core::tutorial::{
    primitive_row, primitive_rows, typed_glyphs, MissingParam, NavLink, TutorialPage,
};

fn pages() -> Vec<TutorialPage> {
    vec![
        TutorialPage::Basic,
        TutorialPage::Math,
        TutorialPage::Arrays,
        TutorialPage::Types,
        TutorialPage::Bindings,
        TutorialPage::Functions,
        TutorialPage::Modules,
    ]
}

#[test]
fn all_lists_the_pages_in_order() {
    assert_eq!(TutorialPage::all(), pages());
}

#[test]
fn the_path_is_the_name_in_lower_case() {
    let paths: Vec<String> = pages().iter().map(|p| p.path()).collect();
    assert_eq!(
        paths,
        vec!["basic", "math", "arrays", "types", "bindings", "functions", "modules"]
    );
    for p in pages() {
        assert_eq!(p.path(), format!("{:?}", p).to_lowercase());
    }
}

#[test]
fn every_page_has_its_title() {
    let titles: Vec<&str> = pages().iter().map(|p| p.title()).collect();
    assert_eq!(
        titles,
        vec![
            "Basic Stack Operations and Formatting",
            "Math and Comparison",
            "Arrays",
            "Types",
            "Bindings",
            "Modifiers and Functions",
            "Modules",
        ]
    );
}

#[test]
fn next_and_previous_walk_the_pages() {
    let all = pages();
    for (i, p) in all.iter().enumerate() {
        assert_eq!(p.next(), all.get(i + 1).copied());
        assert_eq!(p.previous(), if i == 0 { None } else { Some(all[i - 1]) });
    }
}

#[test]
fn a_page_is_found_by_its_path() {
    for p in pages() {
        assert_eq!(TutorialPage::from_path(Some(&p.path())), Some(p));
    }
    assert_eq!(TutorialPage::from_path(Some("Basic")), None);
    assert_eq!(TutorialPage::from_path(Some("")), None);
    assert_eq!(TutorialPage::from_path(Some("maths")), None);
    assert_eq!(TutorialPage::from_path(None), None);
}

#[test]
fn a_missing_page_names_the_parameter() {
    assert_eq!(TutorialPage::from_param(Some("types"), "page"), Ok(TutorialPage::Types));
    assert_eq!(
        TutorialPage::from_param(Some("nope"), "page"),
        Err(MissingParam { name: "page".to_string() })
    );
    assert_eq!(
        TutorialPage::from_param(None, "page"),
        Err(MissingParam { name: "page".to_string() })
    );
}

#[test]
fn links_lead_to_the_neighbours() {
    assert_eq!(
        TutorialPage::Math.link(),
        NavLink { href: "/docs/math".to_string(), title: "Math and Comparison" }
    );
    let (before, after) = TutorialPage::Math.nav_links();
    assert_eq!(before, Some(TutorialPage::Basic.link()));
    assert_eq!(after, Some(TutorialPage::Arrays.link()));
    assert_eq!(TutorialPage::Basic.nav_links().0, None);
    assert_eq!(TutorialPage::Modules.nav_links().1, None);
    assert_eq!(
        TutorialPage::Functions.nav_links().1,
        Some(NavLink { href: "/docs/modules".to_string(), title: "Modules" })
    );
}

#[test]
fn a_row_shows_what_is_typed_for_a_built_in() {
    let mul = primitive_row(Primitive::Mul);
    assert_eq!(mul.name, Some("multiply"));
    assert_eq!(mul.ascii, Some("*".to_string()));
    assert_eq!(mul.glyph, Some('×'));
    assert_eq!(mul.args, 2);
    let add = primitive_row(Primitive::Add);
    assert_eq!(add.ascii, Some("+".to_string()));
    assert_eq!(add.glyph, Some('+'));
    let sqrt = primitive_row(Primitive::Sqrt);
    assert_eq!(sqrt.name, Some("sqrt"));
    assert_eq!(sqrt.ascii, None);
    assert_eq!(sqrt.glyph, Some('√'));
    assert_eq!(sqrt.args, 1);
    let used = primitive_row(Primitive::Use);
    assert_eq!((used.ascii, used.glyph), (None, None));
}

#[test]
fn rows_come_in_the_order_asked_for() {
    let prims = vec![Primitive::Eq, Primitive::Ne, Primitive::Lt, Primitive::Floor];
    let rows = primitive_rows(&prims);
    let shown: Vec<Primitive> = rows.iter().map(|r| r.primitive).collect();
    assert_eq!(shown, prims);
    let typed: Vec<Option<String>> = rows.iter().map(|r| r.ascii.clone()).collect();
    assert_eq!(typed, vec![Some("=".to_string()), Some("!=".to_string()), Some("<".to_string()), None]);
    assert!(primitive_rows(&vec![]).is_empty());
}

#[test]
fn the_table_of_typed_glyphs_holds_the_ascii_spellings() {
    assert_eq!(
        typed_glyphs(),
        vec![Primitive::Ne, Primitive::Le, Primitive::Ge, Primitive::Mul, Primitive::Div]
    );
}

#[test]
fn the_table_of_built_ins_is_complete() {
    let all = Primitive::all();
    assert_eq!(all.len(), 45);
    assert_eq!(all[0], Primitive::Dup);
    assert_eq!(all[44], Primitive::Io(IoOp::FWriteAll));
    for (i, p) in all.iter().enumerate() {
        assert!(!all[..i].contains(p));
        assert!(p.name().is_some());
    }
}

#[test]
fn built_ins_have_names_glyphs_and_arities() {
    assert_eq!(Primitive::Max.name(), Some("maximum"));
    assert_eq!(Primitive::Max.unicode(), Some('↥'));
    assert_eq!(Primitive::Max.ascii(), None);
    assert_eq!(Primitive::Max.args(), 2);
    assert_eq!(Primitive::Le.ascii(), Some("<="));
    assert_eq!(Primitive::Le.unicode(), Some('≤'));
    assert_eq!(Primitive::Neg.unicode(), Some('¯'));
    assert_eq!(Primitive::Neg.args(), 1);
    assert_eq!(Primitive::Rand.args(), 0);
    assert_eq!(Primitive::Io(IoOp::Import).name(), Some("import"));
    assert_eq!(Primitive::Io(IoOp::Import).unicode(), None);
    assert_eq!(Primitive::Shape.unicode(), Some('△'));
    assert_eq!(Primitive::Len.unicode(), Some('≢'));
    assert_eq!(Primitive::Rank.unicode(), Some('∴'));
}

#[test]
fn text_goes_to_characters_and_back() {
    assert_eq!(chars_of("a×😀"), vec!['a', '×', '😀']);
    assert_eq!(chars_of(""), Vec::<char>::new());
    assert_eq!(string_of(&vec!['a', '×', '😀']), "a×😀");
    assert_eq!(string_of(&vec![]), "");
    assert_eq!(string_of(&chars_of("÷6 ×3 8")), "÷6 ×3 8");
}

