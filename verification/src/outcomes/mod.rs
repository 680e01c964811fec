//! What the operations come to, said of rows and fields.
pub mod amounts;
pub mod backup;
pub mod fetch;
pub mod manual;
pub mod merge;
pub mod names;
pub mod positions;
pub mod replies;
pub mod reports;
pub mod settings;
pub mod text;
pub mod totals;
