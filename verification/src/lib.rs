//! A watchdog for a machine: it watches the attached USB devices, the
//! network, a remote burn file and the files under chosen directories, and
//! says what to do when one of them changes.
pub mod boobytrap;
pub mod default_config;
pub mod monitors;
pub mod settings;
pub mod text;
