//! A log-file rotator: the path arithmetic of numbered backups, the plan of
//! renames that shifts them, the settings that decide when to rotate, and the
//! decisions of the watch loop. Everything here is verified, with two calls
//! taken on trust: regex for reading a size text, serde_json for reading a
//! settings object. The file system, the notification stream and the timers
//! live with the caller.
pub mod helpers;
pub mod files;
pub mod file;
pub mod settings;
pub mod models;
pub mod processes;
