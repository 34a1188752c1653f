//! Verified core of the music-collection setup tool: path splitting, media
//! classification, page numbering, cover-art reports and record building.

pub mod text;
pub mod numbers;
pub mod paths;
pub mod types;
pub mod utils;
pub mod sizes;
pub mod digest;
pub mod media;
pub mod paging;
pub mod coverart;
pub mod records;
pub mod settings;
pub mod report;
pub mod tags;
pub mod albums;
