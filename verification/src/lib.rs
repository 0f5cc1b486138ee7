pub mod error;
pub mod extract;
pub mod orchestrator;
pub mod page_archive;
pub mod parsing;
pub mod urls;

pub use error::Error;
pub use page_archive::PageArchive;
