//! Ingestion and plotting preparation for wearable biosignal recordings.
//!
//! Exported files of chest-strap monitors and smartwatch ECG recordings are
//! recognised by their first line, parsed into channels, and turned into point
//! sequences and time-axis grid marks for a plotting front end. Sample values
//! are exact decimals; timestamps are milliseconds since the Unix epoch.

pub mod decimal;
pub mod text;
mod bridge;
pub mod channel;
pub mod import;
pub mod grid_helper;
pub mod sample_data;

pub use channel::ChannelPlotter;
pub use import::parse_content;
pub use sample_data::SampleData;
