//! DOM, styles, selectors, virtual DOM and layout configuration.
pub mod style;
pub mod dom;
pub mod css;
pub mod domtree;
pub mod vdom;
pub mod event;
pub mod positioning;
pub mod flex;
pub mod table_layout;
pub mod float_layout;
pub mod grid;
pub mod cache;
pub mod html;
