//! Where the configuration file lives.
use vstd::prelude::*;

use crate::detectors::common::{join_path, join_path_spec};

verus! {

/// The system the application runs on, as far as the configuration
/// directory depends on it.
#[derive(Debug, Clone, Copy, PartialEq, Eq, Structural)]
pub enum Platform {
    Linux,
    MacOs,
    Windows,
    Other,
}

/// The directory that holds the application's configuration, given the
/// variables `XDG_CONFIG_HOME`, `HOME` and `APPDATA` as far as they are set.
pub open spec fn config_dir_spec(
    platform: Platform,
    xdg: Option<Seq<char>>,
    home: Option<Seq<char>>,
    appdata: Option<Seq<char>>,
) -> Seq<char> {
    match platform {
        Platform::Linux => match (xdg, home) {
            (Some(x), _) => x,
            (None, Some(h)) => join_path_spec(h, ".config"@),
            (None, None) => "."@,
        },
        Platform::MacOs => match home {
            Some(h) => join_path_spec(join_path_spec(h, "Library"@), "Application Support"@),
            None => "."@,
        },
        Platform::Windows => match appdata {
            Some(a) => a,
            None => "."@,
        },
        Platform::Other => "."@,
    }
}

/// The directory that holds the application's configuration.
pub fn config_dir(
    platform: Platform,
    xdg: Option<String>,
    home: Option<String>,
    appdata: Option<String>,
) -> (r: String)
    ensures
        r@ == config_dir_spec(
            platform,
            crate::link::opt_text(xdg),
            crate::link::opt_text(home),
            crate::link::opt_text(appdata),
        ),
{
    match platform {
        Platform::Linux => match (xdg, home) {
            (Some(x), _) => x,
            (None, Some(h)) => join_path(h.as_str(), ".config"),
            (None, None) => ".".to_owned(),
        },
        Platform::MacOs => match home {
            Some(h) => {
                let lib = join_path(h.as_str(), "Library");
                join_path(lib.as_str(), "Application Support")
            },
            None => ".".to_owned(),
        },
        Platform::Windows => match appdata {
            Some(a) => a,
            None => ".".to_owned(),
        },
        Platform::Other => ".".to_owned(),
    }
}

/// A JSON configuration file, and the file of an earlier layout that is
/// migrated from when the first is missing.
pub struct JsonConfigRepository {
    path: String,
    legacy_path: String,
}

impl JsonConfigRepository {
    /// The configuration file under the configuration directory `base`, and
    /// the file of the earlier layout there.
    pub fn new(base: &str) -> (r: JsonConfigRepository)
        ensures
            r.path_spec() == join_path_spec(join_path_spec(base@, "link-router"@), "config.json"@),
            r.legacy_spec() == join_path_spec(join_path_spec(base@, "linkrouter"@), "config.json"@),
    {
        let dir = join_path(base, "link-router");
        let legacy_dir = join_path(base, "linkrouter");
        JsonConfigRepository {
            path: join_path(dir.as_str(), "config.json"),
            legacy_path: join_path(legacy_dir.as_str(), "config.json"),
        }
    }

    /// The configuration file at `path`, with no earlier file.
    pub fn new_at(path: String) -> (r: JsonConfigRepository)
        ensures
            r.path_spec() == path@,
            r.legacy_spec() == Seq::<char>::empty(),
    {
        JsonConfigRepository { path, legacy_path: String::new() }
    }

    /// The configuration file at `path`, migrated from `legacy_path`.
    pub fn new_at_with_legacy(path: String, legacy_path: String) -> (r: JsonConfigRepository)
        ensures
            r.path_spec() == path@,
            r.legacy_spec() == legacy_path@,
    {
        JsonConfigRepository { path, legacy_path }
    }

    pub closed spec fn path_spec(&self) -> Seq<char> {
        self.path@
    }

    pub closed spec fn legacy_spec(&self) -> Seq<char> {
        self.legacy_path@
    }

    /// The configuration file.
    pub fn path(&self) -> (p: &str)
        ensures
            p@ == self.path_spec(),
    {
        self.path.as_str()
    }

    /// The file of the earlier layout.
    pub fn legacy_path(&self) -> (p: &str)
        ensures
            p@ == self.legacy_spec(),
    {
        self.legacy_path.as_str()
    }
}

} // verus!
