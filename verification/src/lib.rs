//! Verified core of lazyrsync: path expansion, rsync argument assembly,
//! snapshot numbering, headless target selection and the pure parts of the
//! terminal UI.

pub mod completion;
pub mod env;
pub mod fields;
pub mod headless;
pub mod path_laws;
pub mod paths;
pub mod popups;
pub mod profile;
pub mod rsync;
pub mod rsync_laws;
pub mod text;
