pub mod entity;
pub mod component;
pub mod component_manager;
