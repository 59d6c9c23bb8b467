//! The pages of the tutorial: their order, their addresses and titles, and the
//! tables of built-ins that they show.

use vstd::prelude::*;
use vstd::string::StringExecFns;
use crate::primitive::Primitive;
use crate::text::push_char;

verus! {

/// A page of the tutorial. The pages are read in the order of the variants.
#[derive(Debug, Clone, Copy, PartialEq, Eq, Structural)]
pub enum TutorialPage {
    Basic,
    Math,
    Arrays,
    Types,
    Bindings,
    Functions,
    Modules,
}

/// A link from one page of the tutorial to a neighbour.
#[derive(Debug, Clone, PartialEq, Eq)]
pub struct NavLink {
    pub href: String,
    pub title: &'static str,
}

/// The page that an address asks for does not exist; `name` is the parameter
/// of the address that named it.
#[derive(Debug, Clone, PartialEq, Eq)]
pub struct MissingParam {
    pub name: String,
}

/// A row of a table of built-ins.
#[derive(Debug, Clone, PartialEq, Eq)]
pub struct PrimitiveRow {
    pub primitive: Primitive,
    pub name: Option<&'static str>,
    pub ascii: Option<String>,
    pub glyph: Option<char>,
    pub args: u8,
}

impl TutorialPage {
    /// The last part of the page's address: the page's name in lower case.
    pub open spec fn path_text(self) -> Seq<char> {
        match self {
            TutorialPage::Basic => "basic"@,
            TutorialPage::Math => "math"@,
            TutorialPage::Arrays => "arrays"@,
            TutorialPage::Types => "types"@,
            TutorialPage::Bindings => "bindings"@,
            TutorialPage::Functions => "functions"@,
            TutorialPage::Modules => "modules"@,
        }
    }

    /// The page's heading.
    pub open spec fn title_text(self) -> Seq<char> {
        match self {
            TutorialPage::Basic => "Basic Stack Operations and Formatting"@,
            TutorialPage::Math => "Math and Comparison"@,
            TutorialPage::Arrays => "Arrays"@,
            TutorialPage::Types => "Types"@,
            TutorialPage::Bindings => "Bindings"@,
            TutorialPage::Functions => "Modifiers and Functions"@,
            TutorialPage::Modules => "Modules"@,
        }
    }

    /// The place of the page in the order of reading.
    pub open spec fn position(self) -> int {
        match self {
            TutorialPage::Basic => 0,
            TutorialPage::Math => 1,
            TutorialPage::Arrays => 2,
            TutorialPage::Types => 3,
            TutorialPage::Bindings => 4,
            TutorialPage::Functions => 5,
            TutorialPage::Modules => 6,
        }
    }

    /// The pages in the order of reading.
    pub open spec fn pages() -> Seq<TutorialPage> {
        seq![
            TutorialPage::Basic,
            TutorialPage::Math,
            TutorialPage::Arrays,
            TutorialPage::Types,
            TutorialPage::Bindings,
            TutorialPage::Functions,
            TutorialPage::Modules,
        ]
    }

    /// The address of the page below the address of the documentation.
    pub open spec fn href_text(self) -> Seq<char> {
        "/docs/"@ + self.path_text()
    }

    /// The last part of the page's address: the page's name in lower case.
    pub fn path(&self) -> (r: String)
        ensures
            r@ == self.path_text(),
    {
        match self {
            TutorialPage::Basic => String::from_str("basic"),
            TutorialPage::Math => String::from_str("math"),
            TutorialPage::Arrays => String::from_str("arrays"),
            TutorialPage::Types => String::from_str("types"),
            TutorialPage::Bindings => String::from_str("bindings"),
            TutorialPage::Functions => String::from_str("functions"),
            TutorialPage::Modules => String::from_str("modules"),
        }
    }

    /// The page's heading.
    pub fn title(&self) -> (r: &'static str)
        ensures
            r@ == self.title_text(),
    {
        match self {
            Self::Basic => "Basic Stack Operations and Formatting",
            Self::Math => "Math and Comparison",
            Self::Arrays => "Arrays",
            Self::Types => "Types",
            Self::Bindings => "Bindings",
            Self::Functions => "Modifiers and Functions",
            Self::Modules => "Modules",
        }
    }

    /// The pages in the order of reading.
    pub fn all() -> (r: Vec<TutorialPage>)
        ensures
            r@ == Self::pages(),
    {
        let mut r: Vec<TutorialPage> = Vec::new();
        r.push(TutorialPage::Basic);
        r.push(TutorialPage::Math);
        r.push(TutorialPage::Arrays);
        r.push(TutorialPage::Types);
        r.push(TutorialPage::Bindings);
        r.push(TutorialPage::Functions);
        r.push(TutorialPage::Modules);
        assert(r@ =~= Self::pages());
        r
    }

    /// The page that is read after this one, if any.
    pub fn next(&self) -> (r: Option<TutorialPage>)
        ensures
            match r {
                Some(q) => q.position() == self.position() + 1,
                None => self.position() + 1 == Self::pages().len(),
            },
    {
        match self {
            TutorialPage::Basic => Some(TutorialPage::Math),
            TutorialPage::Math => Some(TutorialPage::Arrays),
            TutorialPage::Arrays => Some(TutorialPage::Types),
            TutorialPage::Types => Some(TutorialPage::Bindings),
            TutorialPage::Bindings => Some(TutorialPage::Functions),
            TutorialPage::Functions => Some(TutorialPage::Modules),
            TutorialPage::Modules => None,
        }
    }

    /// The page that is read before this one, if any.
    pub fn previous(&self) -> (r: Option<TutorialPage>)
        ensures
            match r {
                Some(q) => q.position() == self.position() - 1,
                None => self.position() == 0,
            },
    {
        match self {
            TutorialPage::Basic => None,
            TutorialPage::Math => Some(TutorialPage::Basic),
            TutorialPage::Arrays => Some(TutorialPage::Math),
            TutorialPage::Types => Some(TutorialPage::Arrays),
            TutorialPage::Bindings => Some(TutorialPage::Types),
            TutorialPage::Functions => Some(TutorialPage::Bindings),
            TutorialPage::Modules => Some(TutorialPage::Functions),
        }
    }

    /// The page with the address `value`, where a missing one counts as empty.
    pub fn from_path(value: Option<&str>) -> (r: Option<TutorialPage>)
        ensures
            match r {
                Some(p) => value is Some && p.path_text() == value.unwrap()@,
                None => forall|p: TutorialPage|
                    !(value is Some && #[trigger] p.path_text() == value.unwrap()@),
            },
    {
        let wanted = match value {
            Some(v) => String::from_str(v),
            None => {
                return None;
            },
        };
        let pages = Self::all();
        let mut i: usize = 0;
        while i < pages.len()
            invariant
                i <= pages.len(),
                pages@ == Self::pages(),
                value is Some,
                wanted@ == value.unwrap()@,
                forall|k: int| 0 <= k < i ==> (#[trigger] pages@[k]).path_text() != wanted@,
            decreases pages.len() - i,
        {
            if pages[i].path() == wanted {
                return Some(pages[i]);
            }
            i = i + 1;
        }
        assert forall|p: TutorialPage| #[trigger] p.path_text() != wanted@ by {
            Self::lemma_position(p);
        }
        None
    }

    /// The page that the parameter `name` of an address asks for with the
    /// value `value`, or the name of the parameter where there is no such page.
    pub fn from_param(value: Option<&str>, name: &str) -> (r: Result<TutorialPage, MissingParam>)
        ensures
            match r {
                Ok(p) => value is Some && p.path_text() == value.unwrap()@,
                Err(e) => e.name@ == name@ && forall|p: TutorialPage|
                    !(value is Some && #[trigger] p.path_text() == value.unwrap()@),
            },
    {
        match Self::from_path(value) {
            Some(p) => Ok(p),
            None => Err(MissingParam { name: String::from_str(name) }),
        }
    }

    /// The link to this page.
    pub fn link(&self) -> (r: NavLink)
        ensures
            r.href@ == self.href_text(),
            r.title@ == self.title_text(),
    {
        let path = self.path();
        NavLink { href: String::from_str("/docs/").concat(path.as_str()), title: self.title() }
    }

    /// The links to the page before this one and to the page after it.
    pub fn nav_links(&self) -> (r: (Option<NavLink>, Option<NavLink>))
        ensures
            match r.0 {
                Some(l) => exists|q: TutorialPage|
                    q.position() == self.position() - 1 && l.href@ == q.href_text() && l.title@
                        == q.title_text(),
                None => self.position() == 0,
            },
            match r.1 {
                Some(l) => exists|q: TutorialPage|
                    q.position() == self.position() + 1 && l.href@ == q.href_text() && l.title@
                        == q.title_text(),
                None => self.position() + 1 == Self::pages().len(),
            },
    {
        let before = match self.previous() {
            Some(q) => Some(q.link()),
            None => None,
        };
        let after = match self.next() {
            Some(q) => Some(q.link()),
            None => None,
        };
        (before, after)
    }

    /// Every page stands at its position in the order of reading.
    pub proof fn lemma_position(p: TutorialPage)
        ensures
            0 <= p.position() < Self::pages().len(),
            Self::pages()[p.position()] == p,
    {
    }

    /// No page has an empty address, and no two pages share one.
    pub proof fn lemma_paths()
        ensures
            forall|p: TutorialPage| (#[trigger] p.path_text()).len() > 0,
            forall|p: TutorialPage, q: TutorialPage|
                #[trigger] p.path_text() == #[trigger] q.path_text() ==> p == q,
    {
        reveal_strlit("basic");
        reveal_strlit("math");
        reveal_strlit("arrays");
        reveal_strlit("types");
        reveal_strlit("bindings");
        reveal_strlit("functions");
        reveal_strlit("modules");
        assert forall|p: TutorialPage, q: TutorialPage|
            #[trigger] p.path_text() == #[trigger] q.path_text() implies p == q by {
            if p != q {
                assert(p.path_text().len() != q.path_text().len() || p.path_text()[0]
                    != q.path_text()[0]);
            }
        }
    }
}

/// What is typed for a built-in on a plain keyboard: its own spelling where it
/// has one, else its glyph where that is an ASCII character.
pub open spec fn typed_text(p: Primitive) -> Option<Seq<char>> {
    match p.ascii_text() {
        Some(a) => Some(a),
        None => match p.glyph() {
            Some(c) => if (c as u32) < 128 {
                Some(seq![c])
            } else {
                None
            },
            None => None,
        },
    }
}

/// The row that a table of built-ins shows for `p`.
pub fn primitive_row(p: Primitive) -> (r: PrimitiveRow)
    ensures
        r.primitive == p,
        match r.name {
            Some(n) => p.name_text() == Some(n@),
            None => p.name_text() is None,
        },
        crate::cli::option_text(r.ascii) == typed_text(p),
        r.glyph == p.glyph(),
        r.args == p.arity(),
{
    let glyph = p.unicode();
    let ascii = match p.ascii() {
        Some(a) => Some(String::from_str(a)),
        None => match glyph {
            Some(c) => if (c as u32) < 128 {
                let mut s = String::new();
                push_char(&mut s, c);
                assert(s@ =~= seq![c]);
                Some(s)
            } else {
                None
            },
            None => None,
        },
    };
    PrimitiveRow { primitive: p, name: p.name(), ascii, glyph, args: p.args() }
}

/// The rows that a table of built-ins shows for `prims`, one for each in their order.
pub fn primitive_rows(prims: &Vec<Primitive>) -> (rows: Vec<PrimitiveRow>)
    ensures
        rows@.len() == prims@.len(),
        forall|i: int|
            0 <= i < prims@.len() ==> {
                let r = #[trigger] rows@[i];
                let p = prims@[i];
                &&& r.primitive == p
                &&& match r.name {
                    Some(n) => p.name_text() == Some(n@),
                    None => p.name_text() is None,
                }
                &&& crate::cli::option_text(r.ascii) == typed_text(p)
                &&& r.glyph == p.glyph()
                &&& r.args == p.arity()
            },
{
    let mut rows: Vec<PrimitiveRow> = Vec::new();
    let mut i: usize = 0;
    while i < prims.len()
        invariant
            i <= prims.len(),
            rows@.len() == i,
            forall|k: int|
                0 <= k < i ==> {
                    let r = #[trigger] rows@[k];
                    let p = prims@[k];
                    &&& r.primitive == p
                    &&& match r.name {
                        Some(n) => p.name_text() == Some(n@),
                        None => p.name_text() is None,
                    }
                    &&& crate::cli::option_text(r.ascii) == typed_text(p)
                    &&& r.glyph == p.glyph()
                    &&& r.args == p.arity()
                },
        decreases prims.len() - i,
    {
        rows.push(primitive_row(prims[i]));
        i = i + 1;
    }
    rows
}

/// A built-in that has a name, a glyph, and a spelling of its own on a plain
/// keyboard.
pub open spec fn is_typed_glyph(p: Primitive) -> bool {
    p.name_text() is Some && p.ascii_text() is Some && p.glyph() is Some
}

/// The built-ins whose glyph is typed in ASCII characters of their own, in the
/// order of the table of built-ins.
pub fn typed_glyphs() -> (r: Vec<Primitive>)
    ensures
        r@ == Primitive::table().filter(|p: Primitive| is_typed_glyph(p)),
{
    let all = Primitive::all();
    let mut out: Vec<Primitive> = Vec::new();
    let mut i: usize = 0;
    assert(all@.take(0) =~= Seq::<Primitive>::empty());
    assert(out@ =~= all@.take(0).filter(|p: Primitive| is_typed_glyph(p))) by {
        reveal(Seq::filter);
    }
    while i < all.len()
        invariant
            i <= all.len(),
            out@ == all@.take(i as int).filter(|p: Primitive| is_typed_glyph(p)),
        decreases all.len() - i,
    {
        proof {
            assert(all@.take(i + 1) =~= all@.take(i as int).push(all@[i as int]));
            crate::seqs::lemma_filter_push(
                all@.take(i as int),
                all@[i as int],
                |p: Primitive| is_typed_glyph(p),
            );
        }
        let p = all[i];
        if p.name().is_some() && p.ascii().is_some() && p.unicode().is_some() {
            out.push(p);
        }
        i = i + 1;
    }
    assert(all@.take(i as int) =~= all@);
    out
}

} // verus!
