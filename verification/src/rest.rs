//! The remote API's wire shapes, as plain values. The I/O layer decodes
//! responses into these types and hands them to the verified logic.

pub mod files;
pub mod images;
pub mod things;

pub use files::File;
pub use images::Image;
pub use things::Thing;
