//! Daily-report ledger and HTML report rendering.
pub mod ledger;
pub mod charts;
pub mod dashboard;
pub mod markdown;
pub mod order;
pub mod render;
pub mod report;
pub mod safety;
pub mod sections;
pub mod streak;
pub mod text;
