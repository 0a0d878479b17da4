pub mod client;
pub mod page;

pub use page::Page;
