use iris::layout::flex::{FlexDirection, JustifyContent, AlignItems, FlexWrap, AlignContent, LayoutType};
use iris::layout::flex::{align_content_keyword, align_items_keyword, direction_keyword, justify_keyword, wrap_keyword};
use iris::layout::dom::DOMNode;

#[test]
fn test_child_stacking_layout() {
    let mut parent = DOMNode::new_element("div");
    let child1 = DOMNode::new_element("p");
    let child2 = DOMNode::new_element("p");
    parent.append_child(child1);
    parent.append_child(child2);
    
    // 验证子节点被正确添加
    assert_eq!(parent.children.len(), 2);
}

#[test]
fn test_flex_direction_variants() {
    assert_eq!(FlexDirection::Row, FlexDirection::Row);
    assert_eq!(FlexDirection::Column, FlexDirection::Column);
    assert_ne!(FlexDirection::Row, FlexDirection::Column);
}

#[test]
fn test_justify_content_variants() {
    assert_eq!(JustifyContent::FlexStart, JustifyContent::FlexStart);
    assert_eq!(JustifyContent::Center, JustifyContent::Center);
    assert_ne!(JustifyContent::FlexStart, JustifyContent::Center);
}

#[test]
fn test_align_items_variants() {
    assert_eq!(AlignItems::Stretch, AlignItems::Stretch);
    assert_eq!(AlignItems::Center, AlignItems::Center);
    assert_ne!(AlignItems::Stretch, AlignItems::Center);
}

#[test]
fn test_flex_wrap_variants() {
    assert_eq!(FlexWrap::NoWrap, FlexWrap::NoWrap);
    assert_eq!(FlexWrap::Wrap, FlexWrap::Wrap);
    assert_ne!(FlexWrap::NoWrap, FlexWrap::Wrap);
}

#[test]
fn test_flex_container_with_children() {
    // 创建 Flex 容器
    let mut container = DOMNode::new_element("div");
    
    // 添加 Flex 项目
    for i in 0..3 {
        let item = DOMNode::new_element("span");
        container.append_child(item);
    }
    
    assert_eq!(container.children.len(), 3);
    assert!(container.children.iter().all(|c| c.is_element()));
}

#[test]
fn test_layout_type_flex() {
    let flex_type = LayoutType::Flex;
    assert_eq!(flex_type, LayoutType::Flex);
    assert_ne!(flex_type, LayoutType::Flow);
}

#[test]
fn test_flex_row_layout_structure() {
    // 测试 Flex 布局结构是否正确创建
    let mut container = DOMNode::new_element("div");
    container.set_attribute("style", "display: flex; flex-direction: row;");
    
    let item1 = DOMNode::new_element("div");
    let item2 = DOMNode::new_element("div");
    container.append_child(item1);
    container.append_child(item2);
    
    assert_eq!(container.children.len(), 2);
    // 验证容器和项目的结构
    assert!(container.is_element());
}

#[test]
fn test_flex_column_layout_structure() {
    let mut container = DOMNode::new_element("div");
    container.set_attribute("style", "display: flex; flex-direction: column;");
    
    for _ in 0..5 {
        container.append_child(DOMNode::new_element("div"));
    }
    
    assert_eq!(container.children.len(), 5);
}

#[test]
fn test_flex_justify_space_between() {
    let justify = JustifyContent::SpaceBetween;
    assert_eq!(justify, JustifyContent::SpaceBetween);
    assert_ne!(justify, JustifyContent::SpaceAround);
}

#[test]
fn test_flex_align_center() {
    let align = AlignItems::Center;
    assert_eq!(align, AlignItems::Center);
    assert_ne!(align, AlignItems::FlexStart);
}

#[test]
fn test_flex_grow_calculation() {
    // 测试 flex-grow 分配算法
    let total_grow: f32 = 1.0 + 2.0 + 3.0; // 6
    let free_space: f32 = 600.0;
    
    // item1: 1/6 * 600 = 100
    let grow1: f32 = (1.0 / total_grow) * free_space;
    assert!((grow1 - 100.0).abs() < 0.01);
    
    // item2: 2/6 * 600 = 200
    let grow2: f32 = (2.0 / total_grow) * free_space;
    assert!((grow2 - 200.0).abs() < 0.01);
    
    // item3: 3/6 * 600 = 300
    let grow3: f32 = (3.0 / total_grow) * free_space;
    assert!((grow3 - 300.0).abs() < 0.01);
}

#[test]
fn test_flex_shrink_calculation() {
    // 测试 flex-shrink 分配算法
    let basis1: f32 = 200.0;
    let basis2: f32 = 300.0;
    let basis3: f32 = 500.0;
    
    let shrink1: f32 = 1.0;
    let shrink2: f32 = 2.0;
    let shrink3: f32 = 1.0;
    
    let total_shrink_weight: f32 = basis1 * shrink1 + basis2 * shrink2 + basis3 * shrink3;
    // 200*1 + 300*2 + 500*1 = 1300
    assert!((total_shrink_weight - 1300.0).abs() < 0.01);
    
    // item1 的收缩权重
    let weight1: f32 = (basis1 * shrink1) / total_shrink_weight;
    assert!((weight1 - 200.0/1300.0).abs() < 0.001);
}

#[test]
fn test_justify_space_between_calculation() {
    // 测试 space-between 间距计算
    let container_width = 800.0;
    let item_width = 100.0;
    let item_count = 3;
    let total_items = item_width * item_count as f32;
    let remaining = container_width - total_items;
    
    // space-between: 2 个间隙
    let gap = remaining / (item_count - 1) as f32;
    assert!((gap - 250.0).abs() < 0.01); // (800 - 300) / 2 = 250
}

#[test]
fn test_justify_space_around_calculation() {
    // 测试 space-around 间距计算
    let container_width = 800.0;
    let item_width = 100.0;
    let item_count = 3;
    let total_items = item_width * item_count as f32;
    let remaining = container_width - total_items;
    
    // space-around: 每个项目两侧空间相等
    let space_per_item = remaining / item_count as f32;
    assert!((space_per_item - 166.666).abs() < 1.0);
}

#[test]
fn test_justify_space_evenly_calculation() {
    // 测试 space-evenly 间距计算
    let container_width = 800.0;
    let item_width = 100.0;
    let item_count = 3;
    let total_items = item_width * item_count as f32;
    let remaining = container_width - total_items;
    
    // space-evenly: 所有间隙相等（包括两端）
    let gap_count = item_count + 1; // 4 个间隙
    let gap = remaining / gap_count as f32;
    assert!((gap - 125.0).abs() < 0.01); // 500 / 4 = 125
}

#[test]
fn test_align_content_variants() {
    // 测试 AlignContent 枚举
    assert_eq!(AlignContent::Stretch, AlignContent::Stretch);
    assert_eq!(AlignContent::FlexStart, AlignContent::FlexStart);
    assert_eq!(AlignContent::Center, AlignContent::Center);
    assert_ne!(AlignContent::Stretch, AlignContent::FlexStart);
}

#[test]
fn test_flex_wrap_multi_line_structure() {
    // 测试多行 Flex 布局结构
    let mut container = DOMNode::new_element("div");
    
    // 添加 6 个子元素
    for _ in 0..6 {
        container.append_child(DOMNode::new_element("div"));
    }
    
    assert_eq!(container.children.len(), 6);
    
    // 验证容器样式
    container.set_attribute("style", "display: flex; flex-wrap: wrap;");
}

#[test]
fn test_flex_wrap_calculation() {
    // 测试换行计算逻辑
    let container_width: f32 = 400.0;
    let item_width: f32 = 150.0;
    let gap: f32 = 10.0;
    
    // 每行能容纳的项目数
    let items_per_row = ((container_width + gap) / (item_width + gap)).floor() as usize;
    assert_eq!(items_per_row, 2); // 400 / 160 = 2.5 -> 2
    
    // 6 个项目需要多少行
    let total_items = 6;
    let rows = (total_items + items_per_row - 1) / items_per_row;
    assert_eq!(rows, 3); // 6 / 2 = 3 行
}

#[test]
fn test_align_content_space_between_calculation() {
    // 测试 align-content: space-between 计算
    let container_height = 500.0;
    let row_height = 100.0;
    let row_count = 3;
    let gap = 10.0;
    
    let total_rows_height = row_height * row_count as f32;
    let total_gaps = gap * (row_count - 1) as f32;
    let remaining = container_height - total_rows_height - total_gaps;
    
    // space-between: 2 个间隙
    let extra_gap = remaining / (row_count - 1) as f32;
    assert!(extra_gap > 0.0);
}

#[test]
fn test_align_content_space_around_calculation() {
    // 测试 align-content: space-around 计算
    let container_height = 500.0;
    let row_height = 100.0;
    let row_count = 3;
    let gap = 10.0;
    
    let total_rows_height = row_height * row_count as f32;
    let remaining = container_height - total_rows_height;
    
    // space-around: 每个行上下都有空间
    let space_per_row = remaining / row_count as f32;
    assert!(space_per_row > 0.0);
}

#[test]
fn test_flex_column_wrap_structure() {
    // 测试垂直方向 flex-wrap 结构
    let mut container = DOMNode::new_element("div");
    
    // 添加 6 个子元素
    for _ in 0..6 {
        container.append_child(DOMNode::new_element("div"));
    }
    
    assert_eq!(container.children.len(), 6);
    
    // 验证容器样式
    container.set_attribute("style", "display: flex; flex-direction: column; flex-wrap: wrap;");
}

#[test]
fn test_flex_column_wrap_calculation() {
    // 测试垂直方向换列计算逻辑
    let container_height: f32 = 400.0;
    let item_height: f32 = 150.0;
    let gap: f32 = 10.0;
    
    // 每列能容纳的项目数
    let items_per_column = ((container_height + gap) / (item_height + gap)).floor() as usize;
    assert_eq!(items_per_column, 2); // 400 / 160 = 2.5 -> 2
    
    // 6 个项目需要多少列
    let total_items = 6;
    let columns = (total_items + items_per_column - 1) / items_per_column;
    assert_eq!(columns, 3); // 6 / 2 = 3 列
}

#[test]
fn test_justify_content_space_between_column_calculation() {
    // 测试垂直方向 justify-content: space-between 计算
    let container_width: f32 = 500.0;
    let column_width: f32 = 100.0;
    let column_count = 3;
    let gap: f32 = 10.0;
    
    let total_columns_width = column_width * column_count as f32;
    let total_gaps = gap * (column_count - 1) as f32;
    let remaining = container_width - total_columns_width - total_gaps;
    
    // space-between: 2 个间隙
    let extra_gap = remaining / (column_count - 1) as f32;
    assert!(extra_gap > 0.0);
}

#[test]
fn test_justify_content_space_around_column_calculation() {
    // 测试垂直方向 justify-content: space-around 计算
    let container_width: f32 = 500.0;
    let column_width: f32 = 100.0;
    let column_count = 3;
    let gap: f32 = 10.0;
    
    let total_columns_width = column_width * column_count as f32;
    let remaining = container_width - total_columns_width;
    
    // space-around: 每个列左右都有空间
    let space_per_column = remaining / column_count as f32;
    assert!(space_per_column > 0.0);
}

#[test]
fn test_flex_direction_reverse_enum() {
    // 测试反向方向枚举值
    assert_eq!(FlexDirection::Row, FlexDirection::Row);
    assert_eq!(FlexDirection::RowReverse, FlexDirection::RowReverse);
    assert_eq!(FlexDirection::Column, FlexDirection::Column);
    assert_eq!(FlexDirection::ColumnReverse, FlexDirection::ColumnReverse);
    
    assert_ne!(FlexDirection::Row, FlexDirection::RowReverse);
    assert_ne!(FlexDirection::Column, FlexDirection::ColumnReverse);
}

#[test]
fn flex_keywords_and_their_defaults() {
    assert_eq!(direction_keyword("row"), FlexDirection::Row);
    assert_eq!(direction_keyword("row-reverse"), FlexDirection::RowReverse);
    assert_eq!(direction_keyword("column"), FlexDirection::Column);
    assert_eq!(direction_keyword("column-reverse"), FlexDirection::ColumnReverse);
    assert_eq!(direction_keyword("diagonal"), FlexDirection::Row);
    assert_eq!(wrap_keyword("wrap"), FlexWrap::Wrap);
    assert_eq!(wrap_keyword("wrap-reverse"), FlexWrap::WrapReverse);
    assert_eq!(wrap_keyword("nowrap"), FlexWrap::NoWrap);
    assert_eq!(justify_keyword("space-evenly"), JustifyContent::SpaceEvenly);
    assert_eq!(justify_keyword("center"), JustifyContent::Center);
    assert_eq!(justify_keyword("start"), JustifyContent::FlexStart);
    assert_eq!(align_items_keyword("baseline"), AlignItems::Baseline);
    assert_eq!(align_items_keyword("Center"), AlignItems::Stretch);
    assert_eq!(align_content_keyword("space-around"), AlignContent::SpaceAround);
    assert_eq!(align_content_keyword(""), AlignContent::Stretch);
}
