//! The verified core of a desktop workbench.
pub mod background;
pub mod backups;
pub mod calendar;
pub mod codec;
pub mod copying;
pub mod disk;
pub mod files;
pub mod holidays;
pub mod json;
pub mod laws;
pub mod names;
pub mod reminders;
pub mod shell;
pub mod store;
pub mod text;
pub mod updates;
