pub mod selector;
