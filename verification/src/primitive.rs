//! The built-in functions: their names, how they are typed, and their glyphs.

use vstd::prelude::*;

verus! {

/// A built-in function that reaches outside the program.
#[derive(Clone, Copy, Debug, PartialEq, Eq, Structural)]
pub enum IoOp {
    /// Prints a value.
    Print,
    /// Runs a file once and hands on what it left on the stack.
    Import,
    /// Writes a whole file.
    FWriteAll,
}

/// A built-in function.
#[derive(Clone, Copy, Debug, PartialEq, Eq, Structural)]
pub enum Primitive {
    Dup,
    Flip,
    Neg,
    Abs,
    Sqrt,
    Sign,
    Floor,
    Ceil,
    Round,
    Eq,
    Ne,
    Lt,
    Le,
    Gt,
    Ge,
    Add,
    Sub,
    Mul,
    Div,
    Mod,
    Pow,
    Min,
    Max,
    Len,
    Rank,
    Shape,
    First,
    Reverse,
    Join,
    Couple,
    Pick,
    Windows,
    Partition,
    Reduce,
    Scan,
    Each,
    Rows,
    Repeat,
    Call,
    Recur,
    Use,
    Rand,
    Io(IoOp),
}

impl Primitive {
    /// The name of the built-in, where it has one.
    pub open spec fn name_text(self) -> Option<Seq<char>> {
        match self {
            Primitive::Dup => Some("duplicate"@),
            Primitive::Flip => Some("flip"@),
            Primitive::Neg => Some("negate"@),
            Primitive::Abs => Some("absolute"@),
            Primitive::Sqrt => Some("sqrt"@),
            Primitive::Sign => Some("sign"@),
            Primitive::Floor => Some("floor"@),
            Primitive::Ceil => Some("ceiling"@),
            Primitive::Round => Some("round"@),
            Primitive::Eq => Some("equals"@),
            Primitive::Ne => Some("not equals"@),
            Primitive::Lt => Some("less than"@),
            Primitive::Le => Some("less or equal"@),
            Primitive::Gt => Some("greater than"@),
            Primitive::Ge => Some("greater or equal"@),
            Primitive::Add => Some("add"@),
            Primitive::Sub => Some("subtract"@),
            Primitive::Mul => Some("multiply"@),
            Primitive::Div => Some("divide"@),
            Primitive::Mod => Some("modulus"@),
            Primitive::Pow => Some("power"@),
            Primitive::Min => Some("minimum"@),
            Primitive::Max => Some("maximum"@),
            Primitive::Len => Some("length"@),
            Primitive::Rank => Some("rank"@),
            Primitive::Shape => Some("shape"@),
            Primitive::First => Some("first"@),
            Primitive::Reverse => Some("reverse"@),
            Primitive::Join => Some("join"@),
            Primitive::Couple => Some("couple"@),
            Primitive::Pick => Some("pick"@),
            Primitive::Windows => Some("windows"@),
            Primitive::Partition => Some("partition"@),
            Primitive::Reduce => Some("reduce"@),
            Primitive::Scan => Some("scan"@),
            Primitive::Each => Some("each"@),
            Primitive::Rows => Some("rows"@),
            Primitive::Repeat => Some("repeat"@),
            Primitive::Call => Some("call"@),
            Primitive::Recur => Some("recur"@),
            Primitive::Use => Some("use"@),
            Primitive::Rand => Some("rand"@),
            Primitive::Io(IoOp::Print) => Some("print"@),
            Primitive::Io(IoOp::Import) => Some("import"@),
            Primitive::Io(IoOp::FWriteAll) => Some("FWriteAll"@),
        }
    }

    /// What is typed for the built-in on a plain keyboard, where that is not
    /// its glyph.
    pub open spec fn ascii_text(self) -> Option<Seq<char>> {
        match self {
            Primitive::Ne => Some("!="@),
            Primitive::Le => Some("<="@),
            Primitive::Ge => Some(">="@),
            Primitive::Mul => Some("*"@),
            Primitive::Div => Some("%"@),
            _ => None,
        }
    }

    /// The glyph of the built-in, where it has one.
    pub open spec fn glyph(self) -> Option<char> {
        match self {
            Primitive::Dup => Some('.'),
            Primitive::Flip => Some('~'),
            Primitive::Neg => Some('¯'),
            Primitive::Abs => Some('⌵'),
            Primitive::Sqrt => Some('√'),
            Primitive::Sign => Some('±'),
            Primitive::Floor => Some('⌊'),
            Primitive::Ceil => Some('⌈'),
            Primitive::Round => Some('⁅'),
            Primitive::Eq => Some('='),
            Primitive::Ne => Some('≠'),
            Primitive::Lt => Some('<'),
            Primitive::Le => Some('≤'),
            Primitive::Gt => Some('>'),
            Primitive::Ge => Some('≥'),
            Primitive::Add => Some('+'),
            Primitive::Sub => Some('-'),
            Primitive::Mul => Some('×'),
            Primitive::Div => Some('÷'),
            Primitive::Mod => Some('◿'),
            Primitive::Pow => Some('ⁿ'),
            Primitive::Min => Some('↧'),
            Primitive::Max => Some('↥'),
            Primitive::Len => Some('≢'),
            Primitive::Rank => Some('∴'),
            Primitive::Shape => Some('△'),
            Primitive::First => Some('⊢'),
            Primitive::Reverse => Some('⇌'),
            Primitive::Join => Some('⊂'),
            Primitive::Couple => Some('⊟'),
            Primitive::Pick => Some('⊡'),
            Primitive::Windows => Some('◫'),
            Primitive::Partition => Some('⊜'),
            Primitive::Reduce => Some('/'),
            Primitive::Scan => Some('\\'),
            Primitive::Each => Some('∵'),
            Primitive::Rows => Some('≡'),
            Primitive::Repeat => Some('⍥'),
            Primitive::Call => Some(':'),
            Primitive::Recur => Some('↬'),
            _ => None,
        }
    }

    /// The number of values that the built-in takes from the stack.
    pub open spec fn arity(self) -> u8 {
        match self {
            Primitive::Dup => 1,
            Primitive::Flip => 2,
            Primitive::Neg => 1,
            Primitive::Abs => 1,
            Primitive::Sqrt => 1,
            Primitive::Sign => 1,
            Primitive::Floor => 1,
            Primitive::Ceil => 1,
            Primitive::Round => 1,
            Primitive::Eq => 2,
            Primitive::Ne => 2,
            Primitive::Lt => 2,
            Primitive::Le => 2,
            Primitive::Gt => 2,
            Primitive::Ge => 2,
            Primitive::Add => 2,
            Primitive::Sub => 2,
            Primitive::Mul => 2,
            Primitive::Div => 2,
            Primitive::Mod => 2,
            Primitive::Pow => 2,
            Primitive::Min => 2,
            Primitive::Max => 2,
            Primitive::Len => 1,
            Primitive::Rank => 1,
            Primitive::Shape => 1,
            Primitive::First => 1,
            Primitive::Reverse => 1,
            Primitive::Join => 2,
            Primitive::Couple => 2,
            Primitive::Pick => 2,
            Primitive::Windows => 2,
            Primitive::Partition => 2,
            Primitive::Reduce => 1,
            Primitive::Scan => 1,
            Primitive::Each => 1,
            Primitive::Rows => 1,
            Primitive::Repeat => 2,
            Primitive::Call => 1,
            Primitive::Recur => 1,
            Primitive::Use => 2,
            Primitive::Rand => 0,
            Primitive::Io(IoOp::Print) => 1,
            Primitive::Io(IoOp::Import) => 1,
            Primitive::Io(IoOp::FWriteAll) => 2,
        }
    }

    /// The place of the built-in in the table of all of them.
    pub open spec fn index(self) -> int {
        match self {
            Primitive::Dup => 0,
            Primitive::Flip => 1,
            Primitive::Neg => 2,
            Primitive::Abs => 3,
            Primitive::Sqrt => 4,
            Primitive::Sign => 5,
            Primitive::Floor => 6,
            Primitive::Ceil => 7,
            Primitive::Round => 8,
            Primitive::Eq => 9,
            Primitive::Ne => 10,
            Primitive::Lt => 11,
            Primitive::Le => 12,
            Primitive::Gt => 13,
            Primitive::Ge => 14,
            Primitive::Add => 15,
            Primitive::Sub => 16,
            Primitive::Mul => 17,
            Primitive::Div => 18,
            Primitive::Mod => 19,
            Primitive::Pow => 20,
            Primitive::Min => 21,
            Primitive::Max => 22,
            Primitive::Len => 23,
            Primitive::Rank => 24,
            Primitive::Shape => 25,
            Primitive::First => 26,
            Primitive::Reverse => 27,
            Primitive::Join => 28,
            Primitive::Couple => 29,
            Primitive::Pick => 30,
            Primitive::Windows => 31,
            Primitive::Partition => 32,
            Primitive::Reduce => 33,
            Primitive::Scan => 34,
            Primitive::Each => 35,
            Primitive::Rows => 36,
            Primitive::Repeat => 37,
            Primitive::Call => 38,
            Primitive::Recur => 39,
            Primitive::Use => 40,
            Primitive::Rand => 41,
            Primitive::Io(IoOp::Print) => 42,
            Primitive::Io(IoOp::Import) => 43,
            Primitive::Io(IoOp::FWriteAll) => 44,
        }
    }

    /// Every built-in, in the order of the table.
    pub open spec fn table() -> Seq<Primitive> {
        seq![
            Primitive::Dup,
            Primitive::Flip,
            Primitive::Neg,
            Primitive::Abs,
            Primitive::Sqrt,
            Primitive::Sign,
            Primitive::Floor,
            Primitive::Ceil,
            Primitive::Round,
            Primitive::Eq,
            Primitive::Ne,
            Primitive::Lt,
            Primitive::Le,
            Primitive::Gt,
            Primitive::Ge,
            Primitive::Add,
            Primitive::Sub,
            Primitive::Mul,
            Primitive::Div,
            Primitive::Mod,
            Primitive::Pow,
            Primitive::Min,
            Primitive::Max,
            Primitive::Len,
            Primitive::Rank,
            Primitive::Shape,
            Primitive::First,
            Primitive::Reverse,
            Primitive::Join,
            Primitive::Couple,
            Primitive::Pick,
            Primitive::Windows,
            Primitive::Partition,
            Primitive::Reduce,
            Primitive::Scan,
            Primitive::Each,
            Primitive::Rows,
            Primitive::Repeat,
            Primitive::Call,
            Primitive::Recur,
            Primitive::Use,
            Primitive::Rand,
            Primitive::Io(IoOp::Print),
            Primitive::Io(IoOp::Import),
            Primitive::Io(IoOp::FWriteAll),
        ]
    }

    /// The table holds every built-in, each at its own place.
    pub proof fn lemma_table_complete(p: Primitive)
        ensures
            0 <= p.index() < Self::table().len(),
            Self::table()[p.index()] == p,
    {
    }

    /// The name of the built-in, where it has one.
    pub fn name(&self) -> (r: Option<&'static str>)
        ensures
            match r {
                Some(n) => self.name_text() == Some(n@),
                None => self.name_text() is None,
            },
    {
        match self {
            Primitive::Dup => Some("duplicate"),
            Primitive::Flip => Some("flip"),
            Primitive::Neg => Some("negate"),
            Primitive::Abs => Some("absolute"),
            Primitive::Sqrt => Some("sqrt"),
            Primitive::Sign => Some("sign"),
            Primitive::Floor => Some("floor"),
            Primitive::Ceil => Some("ceiling"),
            Primitive::Round => Some("round"),
            Primitive::Eq => Some("equals"),
            Primitive::Ne => Some("not equals"),
            Primitive::Lt => Some("less than"),
            Primitive::Le => Some("less or equal"),
            Primitive::Gt => Some("greater than"),
            Primitive::Ge => Some("greater or equal"),
            Primitive::Add => Some("add"),
            Primitive::Sub => Some("subtract"),
            Primitive::Mul => Some("multiply"),
            Primitive::Div => Some("divide"),
            Primitive::Mod => Some("modulus"),
            Primitive::Pow => Some("power"),
            Primitive::Min => Some("minimum"),
            Primitive::Max => Some("maximum"),
            Primitive::Len => Some("length"),
            Primitive::Rank => Some("rank"),
            Primitive::Shape => Some("shape"),
            Primitive::First => Some("first"),
            Primitive::Reverse => Some("reverse"),
            Primitive::Join => Some("join"),
            Primitive::Couple => Some("couple"),
            Primitive::Pick => Some("pick"),
            Primitive::Windows => Some("windows"),
            Primitive::Partition => Some("partition"),
            Primitive::Reduce => Some("reduce"),
            Primitive::Scan => Some("scan"),
            Primitive::Each => Some("each"),
            Primitive::Rows => Some("rows"),
            Primitive::Repeat => Some("repeat"),
            Primitive::Call => Some("call"),
            Primitive::Recur => Some("recur"),
            Primitive::Use => Some("use"),
            Primitive::Rand => Some("rand"),
            Primitive::Io(IoOp::Print) => Some("print"),
            Primitive::Io(IoOp::Import) => Some("import"),
            Primitive::Io(IoOp::FWriteAll) => Some("FWriteAll"),
        }
    }

    /// What is typed for the built-in on a plain keyboard, where that is not
    /// its glyph.
    pub fn ascii(&self) -> (r: Option<&'static str>)
        ensures
            match r {
                Some(a) => self.ascii_text() == Some(a@),
                None => self.ascii_text() is None,
            },
    {
        match self {
            Primitive::Ne => Some("!="),
            Primitive::Le => Some("<="),
            Primitive::Ge => Some(">="),
            Primitive::Mul => Some("*"),
            Primitive::Div => Some("%"),
            _ => None,
        }
    }

    /// The glyph of the built-in, where it has one.
    pub fn unicode(&self) -> (r: Option<char>)
        ensures
            r == self.glyph(),
    {
        match self {
            Primitive::Dup => Some('.'),
            Primitive::Flip => Some('~'),
            Primitive::Neg => Some('¯'),
            Primitive::Abs => Some('⌵'),
            Primitive::Sqrt => Some('√'),
            Primitive::Sign => Some('±'),
            Primitive::Floor => Some('⌊'),
            Primitive::Ceil => Some('⌈'),
            Primitive::Round => Some('⁅'),
            Primitive::Eq => Some('='),
            Primitive::Ne => Some('≠'),
            Primitive::Lt => Some('<'),
            Primitive::Le => Some('≤'),
            Primitive::Gt => Some('>'),
            Primitive::Ge => Some('≥'),
            Primitive::Add => Some('+'),
            Primitive::Sub => Some('-'),
            Primitive::Mul => Some('×'),
            Primitive::Div => Some('÷'),
            Primitive::Mod => Some('◿'),
            Primitive::Pow => Some('ⁿ'),
            Primitive::Min => Some('↧'),
            Primitive::Max => Some('↥'),
            Primitive::Len => Some('≢'),
            Primitive::Rank => Some('∴'),
            Primitive::Shape => Some('△'),
            Primitive::First => Some('⊢'),
            Primitive::Reverse => Some('⇌'),
            Primitive::Join => Some('⊂'),
            Primitive::Couple => Some('⊟'),
            Primitive::Pick => Some('⊡'),
            Primitive::Windows => Some('◫'),
            Primitive::Partition => Some('⊜'),
            Primitive::Reduce => Some('/'),
            Primitive::Scan => Some('\\'),
            Primitive::Each => Some('∵'),
            Primitive::Rows => Some('≡'),
            Primitive::Repeat => Some('⍥'),
            Primitive::Call => Some(':'),
            Primitive::Recur => Some('↬'),
            _ => None,
        }
    }

    /// The number of values that the built-in takes from the stack.
    pub fn args(&self) -> (r: u8)
        ensures
            r == self.arity(),
    {
        match self {
            Primitive::Dup => 1,
            Primitive::Flip => 2,
            Primitive::Neg => 1,
            Primitive::Abs => 1,
            Primitive::Sqrt => 1,
            Primitive::Sign => 1,
            Primitive::Floor => 1,
            Primitive::Ceil => 1,
            Primitive::Round => 1,
            Primitive::Eq => 2,
            Primitive::Ne => 2,
            Primitive::Lt => 2,
            Primitive::Le => 2,
            Primitive::Gt => 2,
            Primitive::Ge => 2,
            Primitive::Add => 2,
            Primitive::Sub => 2,
            Primitive::Mul => 2,
            Primitive::Div => 2,
            Primitive::Mod => 2,
            Primitive::Pow => 2,
            Primitive::Min => 2,
            Primitive::Max => 2,
            Primitive::Len => 1,
            Primitive::Rank => 1,
            Primitive::Shape => 1,
            Primitive::First => 1,
            Primitive::Reverse => 1,
            Primitive::Join => 2,
            Primitive::Couple => 2,
            Primitive::Pick => 2,
            Primitive::Windows => 2,
            Primitive::Partition => 2,
            Primitive::Reduce => 1,
            Primitive::Scan => 1,
            Primitive::Each => 1,
            Primitive::Rows => 1,
            Primitive::Repeat => 2,
            Primitive::Call => 1,
            Primitive::Recur => 1,
            Primitive::Use => 2,
            Primitive::Rand => 0,
            Primitive::Io(IoOp::Print) => 1,
            Primitive::Io(IoOp::Import) => 1,
            Primitive::Io(IoOp::FWriteAll) => 2,
        }
    }

    /// Every built-in, in the order of the table.
    pub fn all() -> (r: Vec<Primitive>)
        ensures
            r@ == Self::table(),
    {
        let mut r: Vec<Primitive> = Vec::new();
        r.push(Primitive::Dup);
        r.push(Primitive::Flip);
        r.push(Primitive::Neg);
        r.push(Primitive::Abs);
        r.push(Primitive::Sqrt);
        r.push(Primitive::Sign);
        r.push(Primitive::Floor);
        r.push(Primitive::Ceil);
        r.push(Primitive::Round);
        r.push(Primitive::Eq);
        r.push(Primitive::Ne);
        r.push(Primitive::Lt);
        r.push(Primitive::Le);
        r.push(Primitive::Gt);
        r.push(Primitive::Ge);
        r.push(Primitive::Add);
        r.push(Primitive::Sub);
        r.push(Primitive::Mul);
        r.push(Primitive::Div);
        r.push(Primitive::Mod);
        r.push(Primitive::Pow);
        r.push(Primitive::Min);
        r.push(Primitive::Max);
        r.push(Primitive::Len);
        r.push(Primitive::Rank);
        r.push(Primitive::Shape);
        r.push(Primitive::First);
        r.push(Primitive::Reverse);
        r.push(Primitive::Join);
        r.push(Primitive::Couple);
        r.push(Primitive::Pick);
        r.push(Primitive::Windows);
        r.push(Primitive::Partition);
        r.push(Primitive::Reduce);
        r.push(Primitive::Scan);
        r.push(Primitive::Each);
        r.push(Primitive::Rows);
        r.push(Primitive::Repeat);
        r.push(Primitive::Call);
        r.push(Primitive::Recur);
        r.push(Primitive::Use);
        r.push(Primitive::Rand);
        r.push(Primitive::Io(IoOp::Print));
        r.push(Primitive::Io(IoOp::Import));
        r.push(Primitive::Io(IoOp::FWriteAll));
        assert(r@ =~= Self::table());
        r
    }
}

} // verus!
