//! Local repository metadata, read only as evidence of what is tracked.
pub mod index;
pub mod config;
pub mod pointer;
pub mod evidence;
pub mod tracking;
pub mod inquiry;
