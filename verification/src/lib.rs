//! Record working hours against categories and turn them into export tables.

pub mod text;
pub mod model;
pub mod templates;
pub mod export;
pub mod csvfile;
pub mod sheets;
pub mod categories;
pub mod drafts;
