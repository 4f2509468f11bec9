use iris::layout::grid::GridPlacement;

#[test]
fn test_grid_placement_parsing() {
    let placement = GridPlacement::from_css("1");
    assert_eq!(placement.start, 1);
    assert_eq!(placement.end, 2);

    let placement = GridPlacement::from_css("1 / 3");
    assert_eq!(placement.start, 1);
    assert_eq!(placement.end, 3);

    let placement = GridPlacement::from_css("span 2");
    assert_eq!(placement.span, Some(2));
}
