use iris::layout::float_layout::FloatConfig;
use iris::layout::positioning::{FloatType, ClearType};
use iris::layout::style::ComputedStyles;

#[test]
fn test_float_config_from_styles() {
    let mut styles = ComputedStyles::new();
    styles.set("float", "left");
    styles.set("clear", "both");

    let config = FloatConfig::from_styles(&styles);
    assert_eq!(config.float, FloatType::Left);
    assert_eq!(config.clear, ClearType::Both);
    assert!(config.is_floated());
    assert!(config.needs_clear());
}
