//! CSS positioning keywords: `position`, `float` and `clear`.
use vstd::prelude::*;
use crate::text::{trim, trim_str, str_eq, lemma_trim_plain};

verus! {

/// Value of the `position` property.
#[derive(Debug, Clone, Copy, PartialEq, Eq, Structural)]
pub enum PositionType {
    /// `static`, the default.
    Static,
    /// `relative`.
    Relative,
    /// `absolute`.
    Absolute,
    /// `fixed`.
    Fixed,
    /// `sticky`.
    Sticky,
}

/// The `position` keyword read from `s` (surrounding whitespace ignored);
/// anything unknown is `static`.
pub open spec fn position_from(s: Seq<char>) -> PositionType {
    let t = trim(s);
    if t == "static"@ {
        PositionType::Static
    } else if t == "relative"@ {
        PositionType::Relative
    } else if t == "absolute"@ {
        PositionType::Absolute
    } else if t == "fixed"@ {
        PositionType::Fixed
    } else if t == "sticky"@ {
        PositionType::Sticky
    } else {
        PositionType::Static
    }
}

/// The keyword of a `position` value.
pub open spec fn position_css(p: PositionType) -> Seq<char> {
    match p {
        PositionType::Static => "static"@,
        PositionType::Relative => "relative"@,
        PositionType::Absolute => "absolute"@,
        PositionType::Fixed => "fixed"@,
        PositionType::Sticky => "sticky"@,
    }
}

impl PositionType {
    /// Reads a `position` keyword.
    pub fn from_css(css: &str) -> (p: Self)
        ensures
            p == position_from(css@),
    {
        let t = trim_str(css);
        let t = t.as_str();
        if str_eq(t, "static") {
            PositionType::Static
        } else if str_eq(t, "relative") {
            PositionType::Relative
        } else if str_eq(t, "absolute") {
            PositionType::Absolute
        } else if str_eq(t, "fixed") {
            PositionType::Fixed
        } else if str_eq(t, "sticky") {
            PositionType::Sticky
        } else {
            PositionType::Static
        }
    }

    /// The keyword of this value.
    pub fn to_css(&self) -> (r: &'static str)
        ensures
            r@ == position_css(*self),
    {
        match self {
            PositionType::Static => "static",
            PositionType::Relative => "relative",
            PositionType::Absolute => "absolute",
            PositionType::Fixed => "fixed",
            PositionType::Sticky => "sticky",
        }
    }

    /// Whether the box leaves the normal flow (`absolute` or `fixed`).
    pub fn is_out_of_flow(&self) -> (b: bool)
        ensures
            b == (*self == PositionType::Absolute || *self == PositionType::Fixed),
    {
        match self {
            PositionType::Absolute | PositionType::Fixed => true,
            _ => false,
        }
    }
}

/// Value of the `float` property.
#[derive(Debug, Clone, Copy, PartialEq, Eq, Structural)]
pub enum FloatType {
    /// `none`, the default.
    NoFloat,
    /// `left`.
    Left,
    /// `right`.
    Right,
}

/// The `float` keyword read from `s`; anything unknown is `none`.
pub open spec fn float_from(s: Seq<char>) -> FloatType {
    let t = trim(s);
    if t == "left"@ {
        FloatType::Left
    } else if t == "right"@ {
        FloatType::Right
    } else {
        FloatType::NoFloat
    }
}

/// The keyword of a `float` value.
pub open spec fn float_css(f: FloatType) -> Seq<char> {
    match f {
        FloatType::NoFloat => "none"@,
        FloatType::Left => "left"@,
        FloatType::Right => "right"@,
    }
}

impl FloatType {
    /// Reads a `float` keyword.
    pub fn from_css(css: &str) -> (f: Self)
        ensures
            f == float_from(css@),
    {
        let t = trim_str(css);
        let t = t.as_str();
        if str_eq(t, "left") {
            FloatType::Left
        } else if str_eq(t, "right") {
            FloatType::Right
        } else {
            FloatType::NoFloat
        }
    }

    /// The keyword of this value.
    pub fn to_css(&self) -> (r: &'static str)
        ensures
            r@ == float_css(*self),
    {
        match self {
            FloatType::NoFloat => "none",
            FloatType::Left => "left",
            FloatType::Right => "right",
        }
    }
}

/// Value of the `clear` property.
#[derive(Debug, Clone, Copy, PartialEq, Eq, Structural)]
pub enum ClearType {
    /// `none`, the default.
    NoClear,
    /// `left`.
    Left,
    /// `right`.
    Right,
    /// `both`.
    Both,
}

/// The `clear` keyword read from `s`; anything unknown is `none`.
pub open spec fn clear_from(s: Seq<char>) -> ClearType {
    let t = trim(s);
    if t == "left"@ {
        ClearType::Left
    } else if t == "right"@ {
        ClearType::Right
    } else if t == "both"@ {
        ClearType::Both
    } else {
        ClearType::NoClear
    }
}

/// The keyword of a `clear` value.
pub open spec fn clear_css(c: ClearType) -> Seq<char> {
    match c {
        ClearType::NoClear => "none"@,
        ClearType::Left => "left"@,
        ClearType::Right => "right"@,
        ClearType::Both => "both"@,
    }
}

impl ClearType {
    /// Reads a `clear` keyword.
    pub fn from_css(css: &str) -> (c: Self)
        ensures
            c == clear_from(css@),
    {
        let t = trim_str(css);
        let t = t.as_str();
        if str_eq(t, "left") {
            ClearType::Left
        } else if str_eq(t, "right") {
            ClearType::Right
        } else if str_eq(t, "both") {
            ClearType::Both
        } else {
            ClearType::NoClear
        }
    }

    /// The keyword of this value.
    pub fn to_css(&self) -> (r: &'static str)
        ensures
            r@ == clear_css(*self),
    {
        match self {
            ClearType::NoClear => "none",
            ClearType::Left => "left",
            ClearType::Right => "right",
            ClearType::Both => "both",
        }
    }
}

/// Reading back the keyword of a `position` value gives the value.
pub proof fn lemma_position_roundtrip(p: PositionType)
    ensures
        position_from(position_css(p)) == p,
{
    reveal_strlit("static");
    reveal_strlit("relative");
    reveal_strlit("absolute");
    reveal_strlit("fixed");
    reveal_strlit("sticky");
    lemma_trim_plain(position_css(p));
}

/// Reading back the keyword of a `float` value gives the value.
pub proof fn lemma_float_roundtrip(f: FloatType)
    ensures
        float_from(float_css(f)) == f,
{
    reveal_strlit("none");
    reveal_strlit("left");
    reveal_strlit("right");
    lemma_trim_plain(float_css(f));
}

/// Reading back the keyword of a `clear` value gives the value.
pub proof fn lemma_clear_roundtrip(c: ClearType)
    ensures
        clear_from(clear_css(c)) == c,
{
    reveal_strlit("none");
    reveal_strlit("left");
    reveal_strlit("right");
    reveal_strlit("both");
    lemma_trim_plain(clear_css(c));
}

} // verus!
