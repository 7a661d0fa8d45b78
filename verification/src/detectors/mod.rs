//! Browser discovery: the parsing of the files that describe installed
//! browsers and their profiles, and the assembly of the profile list.
pub mod common;
pub mod assemble;
pub mod linux;
pub mod expand;
pub mod windows;
pub mod macos;
pub mod assemble_laws;
