//! Keywords of flex layout and the kinds of layout.
use vstd::prelude::*;
use crate::text::str_eq;

verus! {

/// Main axis of a flex container.
#[derive(Debug, Clone, Copy, PartialEq, Eq, Structural)]
pub enum FlexDirection {
    /// Horizontal, starting at the left (`row`).
    Row,
    /// Horizontal, starting at the right (`row-reverse`).
    RowReverse,
    /// Vertical, starting at the top (`column`).
    Column,
    /// Vertical, starting at the bottom (`column-reverse`).
    ColumnReverse,
}

/// Alignment on the cross axis.
#[derive(Debug, Clone, Copy, PartialEq, Eq, Structural)]
pub enum AlignItems {
    /// Stretch to fill the container (`stretch`).
    Stretch,
    /// At the cross start (`flex-start`).
    FlexStart,
    /// At the cross end (`flex-end`).
    FlexEnd,
    /// Centered (`center`).
    Center,
    /// On the baseline (`baseline`).
    Baseline,
}

/// Alignment on the main axis.
#[derive(Debug, Clone, Copy, PartialEq, Eq, Structural)]
pub enum JustifyContent {
    /// At the main start (`flex-start`).
    FlexStart,
    /// At the main end (`flex-end`).
    FlexEnd,
    /// Centered (`center`).
    Center,
    /// Space between items (`space-between`).
    SpaceBetween,
    /// Space around items (`space-around`).
    SpaceAround,
    /// Equal space everywhere (`space-evenly`).
    SpaceEvenly,
}

/// Line wrapping of a flex container.
#[derive(Debug, Clone, Copy, PartialEq, Eq, Structural)]
pub enum FlexWrap {
    /// One line (`nowrap`).
    NoWrap,
    /// Several lines (`wrap`).
    Wrap,
    /// Several lines, last first (`wrap-reverse`).
    WrapReverse,
}

/// Alignment of the lines of a multi-line flex container.
#[derive(Debug, Clone, Copy, PartialEq, Eq, Structural)]
pub enum AlignContent {
    /// Stretch lines to fill (`stretch`).
    Stretch,
    /// At the cross start (`flex-start`).
    FlexStart,
    /// At the cross end (`flex-end`).
    FlexEnd,
    /// Centered (`center`).
    Center,
    /// Space between lines (`space-between`).
    SpaceBetween,
    /// Space around lines (`space-around`).
    SpaceAround,
}

/// Kind of layout of a box.
#[derive(Debug, Clone, Copy, PartialEq, Eq, Structural)]
pub enum LayoutType {
    /// Block flow.
    Flow,
    /// Flex layout.
    Flex,
    /// Inline layout.
    Inline,
}

/// The direction a `flex-direction` value names; anything else is a row.
pub open spec fn direction_of(s: Seq<char>) -> FlexDirection {
    if s == "row-reverse"@ {
        FlexDirection::RowReverse
    } else if s == "column"@ {
        FlexDirection::Column
    } else if s == "column-reverse"@ {
        FlexDirection::ColumnReverse
    } else {
        FlexDirection::Row
    }
}

/// The wrapping a `flex-wrap` value names; anything else does not wrap.
pub open spec fn wrap_of(s: Seq<char>) -> FlexWrap {
    if s == "wrap"@ {
        FlexWrap::Wrap
    } else if s == "wrap-reverse"@ {
        FlexWrap::WrapReverse
    } else {
        FlexWrap::NoWrap
    }
}

/// The distribution a `justify-content` value names; anything else packs
/// items at the start.
pub open spec fn justify_of(s: Seq<char>) -> JustifyContent {
    if s == "flex-end"@ {
        JustifyContent::FlexEnd
    } else if s == "center"@ {
        JustifyContent::Center
    } else if s == "space-between"@ {
        JustifyContent::SpaceBetween
    } else if s == "space-around"@ {
        JustifyContent::SpaceAround
    } else if s == "space-evenly"@ {
        JustifyContent::SpaceEvenly
    } else {
        JustifyContent::FlexStart
    }
}

/// The alignment an `align-items` value names; anything else stretches.
pub open spec fn align_items_of(s: Seq<char>) -> AlignItems {
    if s == "flex-start"@ {
        AlignItems::FlexStart
    } else if s == "flex-end"@ {
        AlignItems::FlexEnd
    } else if s == "center"@ {
        AlignItems::Center
    } else if s == "baseline"@ {
        AlignItems::Baseline
    } else {
        AlignItems::Stretch
    }
}

/// The alignment an `align-content` value names; anything else stretches.
pub open spec fn align_content_of(s: Seq<char>) -> AlignContent {
    if s == "flex-start"@ {
        AlignContent::FlexStart
    } else if s == "flex-end"@ {
        AlignContent::FlexEnd
    } else if s == "center"@ {
        AlignContent::Center
    } else if s == "space-between"@ {
        AlignContent::SpaceBetween
    } else if s == "space-around"@ {
        AlignContent::SpaceAround
    } else {
        AlignContent::Stretch
    }
}

/// Reads a `flex-direction` value.
pub fn direction_keyword(s: &str) -> (r: FlexDirection)
    ensures
        r == direction_of(s@),
{
    if str_eq(s, "row-reverse") {
        FlexDirection::RowReverse
    } else if str_eq(s, "column") {
        FlexDirection::Column
    } else if str_eq(s, "column-reverse") {
        FlexDirection::ColumnReverse
    } else {
        FlexDirection::Row
    }
}

/// Reads a `flex-wrap` value.
pub fn wrap_keyword(s: &str) -> (r: FlexWrap)
    ensures
        r == wrap_of(s@),
{
    if str_eq(s, "wrap") {
        FlexWrap::Wrap
    } else if str_eq(s, "wrap-reverse") {
        FlexWrap::WrapReverse
    } else {
        FlexWrap::NoWrap
    }
}

/// Reads a `justify-content` value.
pub fn justify_keyword(s: &str) -> (r: JustifyContent)
    ensures
        r == justify_of(s@),
{
    if str_eq(s, "flex-end") {
        JustifyContent::FlexEnd
    } else if str_eq(s, "center") {
        JustifyContent::Center
    } else if str_eq(s, "space-between") {
        JustifyContent::SpaceBetween
    } else if str_eq(s, "space-around") {
        JustifyContent::SpaceAround
    } else if str_eq(s, "space-evenly") {
        JustifyContent::SpaceEvenly
    } else {
        JustifyContent::FlexStart
    }
}

/// Reads an `align-items` value.
pub fn align_items_keyword(s: &str) -> (r: AlignItems)
    ensures
        r == align_items_of(s@),
{
    if str_eq(s, "flex-start") {
        AlignItems::FlexStart
    } else if str_eq(s, "flex-end") {
        AlignItems::FlexEnd
    } else if str_eq(s, "center") {
        AlignItems::Center
    } else if str_eq(s, "baseline") {
        AlignItems::Baseline
    } else {
        AlignItems::Stretch
    }
}

/// Reads an `align-content` value.
pub fn align_content_keyword(s: &str) -> (r: AlignContent)
    ensures
        r == align_content_of(s@),
{
    if str_eq(s, "flex-start") {
        AlignContent::FlexStart
    } else if str_eq(s, "flex-end") {
        AlignContent::FlexEnd
    } else if str_eq(s, "center") {
        AlignContent::Center
    } else if str_eq(s, "space-between") {
        AlignContent::SpaceBetween
    } else if str_eq(s, "space-around") {
        AlignContent::SpaceAround
    } else {
        AlignContent::Stretch
    }
}

} // verus!
