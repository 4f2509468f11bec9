use iris::layout::positioning::{PositionType, FloatType, ClearType};

#[test]
fn test_position_type_parsing() {
    assert_eq!(PositionType::from_css("static"), PositionType::Static);
    assert_eq!(PositionType::from_css("relative"), PositionType::Relative);
    assert_eq!(PositionType::from_css("absolute"), PositionType::Absolute);
    assert_eq!(PositionType::from_css("fixed"), PositionType::Fixed);
    assert_eq!(PositionType::from_css("sticky"), PositionType::Sticky);
}

#[test]
fn test_float_type_parsing() {
    assert_eq!(FloatType::from_css("left"), FloatType::Left);
    assert_eq!(FloatType::from_css("right"), FloatType::Right);
    assert_eq!(FloatType::from_css("none"), FloatType::NoFloat);
}

#[test]
fn test_clear_type_parsing() {
    assert_eq!(ClearType::from_css("left"), ClearType::Left);
    assert_eq!(ClearType::from_css("right"), ClearType::Right);
    assert_eq!(ClearType::from_css("both"), ClearType::Both);
    assert_eq!(ClearType::from_css("none"), ClearType::NoClear);
}

#[test]
fn test_is_out_of_flow() {
    assert!(!PositionType::Static.is_out_of_flow());
    assert!(!PositionType::Relative.is_out_of_flow());
    assert!(PositionType::Absolute.is_out_of_flow());
    assert!(PositionType::Fixed.is_out_of_flow());
    assert!(!PositionType::Sticky.is_out_of_flow());
}
