pub mod component;
pub mod entity_map;
pub mod entity_set;
pub mod indexed_vec;
