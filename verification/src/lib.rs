//! Target handling, report building and scan decisions for a web fingerprint scanner.

pub mod api;
pub mod helper;
pub mod messages;
pub mod nuclei;
pub mod report;
pub mod result;
pub mod targets;
pub mod text;
