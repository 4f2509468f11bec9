//! Float configuration of a box.
use vstd::prelude::*;
use crate::layout::style::ComputedStyles;
use crate::layout::positioning::{FloatType, ClearType, float_from, clear_from};

verus! {

/// The `float` and `clear` values of a box.
#[derive(Debug, Clone, Copy, PartialEq, Eq, Structural)]
pub struct FloatConfig {
    /// Float side.
    pub float: FloatType,
    /// Cleared sides.
    pub clear: ClearType,
}

impl FloatConfig {
    /// Reads `float` and `clear` from the styles; unset means none.
    pub fn from_styles(styles: &ComputedStyles) -> (c: Self)
        ensures
            c.float == if styles.view().contains_key("float"@) {
                float_from(styles.view()["float"@])
            } else {
                FloatType::NoFloat
            },
            c.clear == if styles.view().contains_key("clear"@) {
                clear_from(styles.view()["clear"@])
            } else {
                ClearType::NoClear
            },
    {
        let float = match styles.get("float") {
            Some(s) => FloatType::from_css(s.as_str()),
            None => FloatType::NoFloat,
        };
        let clear = match styles.get("clear") {
            Some(s) => ClearType::from_css(s.as_str()),
            None => ClearType::NoClear,
        };
        FloatConfig { float, clear }
    }

    /// Whether the box floats.
    pub fn is_floated(&self) -> (b: bool)
        ensures
            b == (self.float != FloatType::NoFloat),
    {
        self.float != FloatType::NoFloat
    }

    /// Whether the box clears floats.
    pub fn needs_clear(&self) -> (b: bool)
        ensures
            b == (self.clear != ClearType::NoClear),
    {
        self.clear != ClearType::NoClear
    }
}

} // verus!
