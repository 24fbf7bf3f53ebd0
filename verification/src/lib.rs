pub mod text;
pub mod types;
pub mod layout;
pub mod pagination;
pub mod cleaner;
pub mod extraction;
pub mod export;
pub mod scanner;
