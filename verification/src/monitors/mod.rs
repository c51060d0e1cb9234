pub mod actions;
pub mod devices;
pub mod filechanges;
pub mod network;
pub mod notify;
pub mod ssh_burn_file;
