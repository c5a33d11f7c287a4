//! The operator-interface model: pages of elements, paths into the element
//! tree, element-level change tracking, and update application.



pub mod apply;
pub mod change;
pub mod content;
pub mod element;
pub mod input;
pub mod manager;
pub mod page;
pub mod page_list;
pub mod summary;
pub mod template;
pub mod update;
pub mod path;
