pub mod loop_;
