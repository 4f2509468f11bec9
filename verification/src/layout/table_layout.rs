//! Table display keywords and cell spans.
use vstd::prelude::*;
use crate::text::{trim, trim_str, str_eq, parse_usize, parse_usize_spec};
use crate::layout::style::ComputedStyles;

verus! {

/// Table role given by the `display` property.
#[derive(Debug, Clone, Copy, PartialEq, Eq, Structural)]
pub enum TableDisplayType {
    /// Not a table element.
    NotTable,
    /// `table`.
    Table,
    /// `table-row`.
    TableRow,
    /// `table-cell`.
    TableCell,
    /// `table-row-group`.
    TableRowGroup,
    /// `table-column`.
    TableColumn,
    /// `table-column-group`.
    TableColumnGroup,
    /// `table-caption`.
    TableCaption,
}

/// The table role read from a `display` value (surrounding whitespace ignored).
pub open spec fn table_display_from(s: Seq<char>) -> TableDisplayType {
    let t = trim(s);
    if t == "table"@ {
        TableDisplayType::Table
    } else if t == "table-row"@ {
        TableDisplayType::TableRow
    } else if t == "table-cell"@ {
        TableDisplayType::TableCell
    } else if t == "table-row-group"@ {
        TableDisplayType::TableRowGroup
    } else if t == "table-column"@ {
        TableDisplayType::TableColumn
    } else if t == "table-column-group"@ {
        TableDisplayType::TableColumnGroup
    } else if t == "table-caption"@ {
        TableDisplayType::TableCaption
    } else {
        TableDisplayType::NotTable
    }
}

impl TableDisplayType {
    /// Reads a `display` value.
    pub fn from_css(css: &str) -> (d: Self)
        ensures
            d == table_display_from(css@),
    {
        let t = trim_str(css);
        let t = t.as_str();
        if str_eq(t, "table") {
            TableDisplayType::Table
        } else if str_eq(t, "table-row") {
            TableDisplayType::TableRow
        } else if str_eq(t, "table-cell") {
            TableDisplayType::TableCell
        } else if str_eq(t, "table-row-group") {
            TableDisplayType::TableRowGroup
        } else if str_eq(t, "table-column") {
            TableDisplayType::TableColumn
        } else if str_eq(t, "table-column-group") {
            TableDisplayType::TableColumnGroup
        } else if str_eq(t, "table-caption") {
            TableDisplayType::TableCaption
        } else {
            TableDisplayType::NotTable
        }
    }
}

/// Border model of a table.
#[derive(Debug, Clone, Copy, PartialEq, Eq, Structural)]
pub enum BorderCollapse {
    /// Separate borders, the default.
    Separate,
    /// Collapsed borders.
    Collapse,
}

impl BorderCollapse {
    /// Reads a `border-collapse` value: `collapse`, else separate.
    pub fn from_css(css: &str) -> (b: Self)
        ensures
            b == if trim(css@) == "collapse"@ { BorderCollapse::Collapse } else { BorderCollapse::Separate },
    {
        let t = trim_str(css);
        if str_eq(t.as_str(), "collapse") {
            BorderCollapse::Collapse
        } else {
            BorderCollapse::Separate
        }
    }
}

/// The value of the first of two properties that is set.
pub open spec fn first_set(m: Map<Seq<char>, Seq<char>>, a: Seq<char>, b: Seq<char>) -> Option<Seq<char>> {
    if m.contains_key(a) {
        Some(m[a])
    } else if m.contains_key(b) {
        Some(m[b])
    } else {
        None
    }
}

/// A span read from an optional property value: the number when it parses,
/// else 1.
pub open spec fn span_from(v: Option<Seq<char>>) -> usize {
    match v {
        Some(s) => match parse_usize_spec(s) {
            Some(n) => n,
            None => 1,
        },
        None => 1,
    }
}

/// Reads one span from the first property that is set.
fn span_of(styles: &ComputedStyles, a: &str, b: &str) -> (n: usize)
    ensures
        n == span_from(first_set(styles.view(), a@, b@)),
{
    let v = match styles.get(a) {
        Some(v) => Some(v),
        None => styles.get(b),
    };
    match v {
        Some(s) => match parse_usize(s.as_str()) {
            Some(n) => n,
            None => 1,
        },
        None => 1,
    }
}

/// Column and row spans of a cell, from `colspan` (or `column-span`) and
/// `rowspan` (or `row-span`); 1 when unset or not a number.
pub fn parse_cell_spans(styles: &ComputedStyles) -> (r: (usize, usize))
    ensures
        r.0 == span_from(first_set(styles.view(), "colspan"@, "column-span"@)),
        r.1 == span_from(first_set(styles.view(), "rowspan"@, "row-span"@)),
{
    let colspan = span_of(styles, "colspan", "column-span");
    let rowspan = span_of(styles, "rowspan", "row-span");
    (colspan, rowspan)
}

} // verus!
