//! Turns a collection of OS tweaks, grouped in categories and written as inline code or as calls
//! into a table of shared functions, into one script for the target OS.
//!
//! - `collection`: the data model and the resolution of the category tree and of function calls.
//! - `template`: the expression grammar of code templates and parameter substitution.
//! - `pipes`, `powershell`: the text transforms that placeholders may apply to a value.
//! - `util`: the banner around each script and the global variables of the start and end code.
//! - `laws`: properties of resolution that hold for every collection.
//!
//! Calls nest at most `collection::MAX_CALL_DEPTH` deep, so a function that calls itself, directly
//! or not, fails with `ParseError::Recursion` instead of recursing without end.
pub mod collection;
pub mod laws;
pub mod pipes;
pub mod powershell;
pub mod template;
pub mod text;
pub mod util;

use vstd::prelude::*;

verus! {

/// The operating systems that a collection can be written for.
#[derive(Clone, Copy, Debug, PartialEq, Eq, Structural)]
pub enum OS {
    /// Apple
    MacOs,
    /// Microsoft
    Windows,
    /// Open source
    Linux,
}

impl OS {
    /// The lower-case name of the OS, as collections and file names write it.
    pub fn name(&self) -> (r: String)
        ensures
            r@ == os_name(*self),
    {
        match self {
            OS::MacOs => String::from_str("macos"),
            OS::Linux => String::from_str("linux"),
            OS::Windows => String::from_str("windows"),
        }
    }
}

/// The lower-case name of `os`.
pub open spec fn os_name(os: OS) -> Seq<char> {
    match os {
        OS::MacOs => "macos"@,
        OS::Linux => "linux"@,
        OS::Windows => "windows"@,
    }
}

} // verus!
