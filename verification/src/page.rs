//! The pure state handling behind the viewer's pages.
//!
//! The graphical shell itself draws widgets and runs commands; what the
//! pages decide — how a click toggles a file tree node, how an edit
//! changes the configuration being drafted — is plain data logic and
//! lives here.

pub mod config;
pub mod files;
pub mod tree;
