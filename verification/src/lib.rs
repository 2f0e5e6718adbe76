//! Search, scrape and install Linux software from release pages and the web:
//! the decisions of the installer, with their contracts.
use vstd::prelude::*;

pub mod text;
pub mod assets;
pub mod urls;
pub mod pattern;
pub mod html;
pub mod scrape;
pub mod search;
pub mod direct;
pub mod install;
pub mod github;
pub mod cli;
pub mod laws;

verus! {

/// The family of Linux distribution the installer runs on.
#[derive(Debug, Clone, Copy, PartialEq, Eq, Structural)]
pub enum Distro {
    Fedora,
    Ubuntu,
    Unknown,
}

/// One search result that can be chosen for installation.
#[derive(Debug, Clone)]
pub struct AppMatch {
    pub name: String,
    pub platform: String,
    pub url: String,
}

/// An install script offered as a `curl … | bash` command.
#[derive(Debug, Clone)]
pub struct CurlInstall {
    pub url: String,
    pub display_name: String,
}

} // verus!
