use iris::layout::table_layout::{TableDisplayType, BorderCollapse, parse_cell_spans};
use iris::layout::style::ComputedStyles;

#[test]
fn test_table_display_type_parsing() {
    assert_eq!(TableDisplayType::from_css("table"), TableDisplayType::Table);
    assert_eq!(TableDisplayType::from_css("table-row"), TableDisplayType::TableRow);
    assert_eq!(TableDisplayType::from_css("table-cell"), TableDisplayType::TableCell);
    assert_eq!(TableDisplayType::from_css("div"), TableDisplayType::NotTable);
}

#[test]
fn test_border_collapse_parsing() {
    assert_eq!(BorderCollapse::from_css("collapse"), BorderCollapse::Collapse);
    assert_eq!(BorderCollapse::from_css("separate"), BorderCollapse::Separate);
}

#[test]
fn test_parse_cell_spans() {
    let mut styles = ComputedStyles::new();
    styles.set("colspan", "2");
    styles.set("rowspan", "3");

    let (colspan, rowspan) = parse_cell_spans(&styles);
    assert_eq!(colspan, 2);
    assert_eq!(rowspan, 3);
}
