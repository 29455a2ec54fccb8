//! Operating-system platforms and the per-entry `os` filter.

use vstd::prelude::*;

use crate::text::{ascii_lower, ascii_lower_vec, chars_of, same_str};

verus! {

/// Detected operating system platform.
#[derive(Debug, Clone, Copy, PartialEq, Eq, Structural)]
pub enum Platform {
    Linux,
    Macos,
    Windows,
}

/// The canonical name of a platform.
pub open spec fn platform_name(p: Platform) -> Seq<char> {
    match p {
        Platform::Linux => "linux"@,
        Platform::Macos => "macos"@,
        Platform::Windows => "windows"@,
    }
}

/// A platform named case-insensitively, with the aliases `darwin` and `win`.
pub open spec fn parse_platform(s: Seq<char>) -> Option<Platform> {
    let l = ascii_lower(s);
    if l == "linux"@ {
        Some(Platform::Linux)
    } else if l == "macos"@ || l == "darwin"@ {
        Some(Platform::Macos)
    } else if l == "windows"@ || l == "win"@ {
        Some(Platform::Windows)
    } else {
        None
    }
}

/// The platform of a machine whose OS is called `os` (as in
/// `std::env::consts::OS`): anything that is neither macOS nor Windows
/// counts as Linux.
pub open spec fn current_spec(os: Seq<char>) -> Platform {
    if os == "macos"@ {
        Platform::Macos
    } else if os == "windows"@ {
        Platform::Windows
    } else {
        Platform::Linux
    }
}

/// Whether an entry tagged with `os` is deployed on `current`.
pub open spec fn should_deploy_spec(os: Option<Seq<char>>, current: Platform) -> bool {
    match os {
        None => true,
        Some(s) => s == "all"@ || parse_platform(s) == Some(current),
    }
}

impl Platform {
    /// The platform of the running machine, from its OS name.
    pub fn current(os: &str) -> (r: Platform)
        ensures
            r == current_spec(os@),
    {
        let v = chars_of(os);
        if same_str(&v, "macos") {
            Platform::Macos
        } else if same_str(&v, "windows") {
            Platform::Windows
        } else {
            Platform::Linux
        }
    }

    /// Parse a platform string (case-insensitive).
    pub fn parse(s: &str) -> (r: Option<Platform>)
        ensures
            r == parse_platform(s@),
    {
        let l = ascii_lower_vec(&chars_of(s));
        if same_str(&l, "linux") {
            Some(Platform::Linux)
        } else if same_str(&l, "macos") || same_str(&l, "darwin") {
            Some(Platform::Macos)
        } else if same_str(&l, "windows") || same_str(&l, "win") {
            Some(Platform::Windows)
        } else {
            None
        }
    }

    pub fn as_str(self) -> (r: &'static str)
        ensures
            r@ == platform_name(self),
    {
        match self {
            Platform::Linux => "linux",
            Platform::Macos => "macos",
            Platform::Windows => "windows",
        }
    }
}

/// Returns `true` if an entry tagged with `os` should be deployed on a
/// machine of platform `current`.
pub fn should_deploy(os: Option<&str>, current: Platform) -> (r: bool)
    ensures
        r == should_deploy_spec(
            match os {
                Some(s) => Some(s@),
                None => None,
            },
            current,
        ),
{
    match os {
        None => true,
        Some(s) => {
            if same_str(&chars_of(s), "all") {
                true
            } else {
                match Platform::parse(s) {
                    Some(p) => p == current,
                    None => false,
                }
            }
        },
    }
}

/// Every platform's name parses back to that platform.
pub proof fn law_platform_roundtrip(p: Platform)
    ensures
        parse_platform(platform_name(p)) == Some(p),
{
    reveal_strlit("linux");
    reveal_strlit("macos");
    reveal_strlit("windows");
    reveal_strlit("darwin");
    reveal_strlit("win");
    assert(ascii_lower("linux"@) =~= "linux"@);
    assert(ascii_lower("macos"@) =~= "macos"@);
    assert(ascii_lower("windows"@) =~= "windows"@);
    assert("macos"@[0] != "linux"@[0]);
    assert("windows"@[0] != "linux"@[0]);
    assert("windows"@[0] != "macos"@[0]);
    assert("windows"@.len() != "darwin"@.len());
}

/// An entry without an `os` tag, or tagged `all`, is deployed everywhere.
pub proof fn law_untagged_deploys_everywhere(current: Platform)
    ensures
        should_deploy_spec(None, current),
        should_deploy_spec(Some("all"@), current),
{
}

} // verus!
