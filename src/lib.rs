//! A development-loop runner: a polling change detector over a directory
//! tree, a supervisor of shell commands, and the run loop that couples them.
pub mod filter;
pub mod file_times;
pub mod watcher;
pub mod process_manager;
pub mod config;
pub mod run_loop;
pub mod scan_lemmas;
