pub mod text;
pub mod search;
pub mod slice_picker;
pub mod ordered_map;
pub mod tree;
pub mod table_preview;
pub mod slicing;
pub mod dataset;
pub mod session;
pub mod layout;
pub mod labels;
