pub mod aliased;
pub mod antialiased;
pub mod selector;
