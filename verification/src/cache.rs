//! Where omatide keeps what it has learned from NOAA, so that it works at
//! sea, and where it looks for its settings.
//!
//! Paths are written here as text with `/` between their parts, as on
//! the Unix systems omatide runs on; reading the environment and the
//! files themselves is the caller's.

use vstd::prelude::*;
use vstd::string::StringExecFns;
use crate::strings::{owned, chars_of, push_char};

verus! {

broadcast use vstd::string::group_string_axioms;

/// A path is absolute when it starts at the root.
pub open spec fn is_absolute(p: Seq<char>) -> bool {
    p.len() > 0 && p[0] == '/'
}

/// One path followed by another, as `PathBuf::join` has it: an absolute
/// second path replaces the first, and a separator goes between them
/// unless the first is empty or already ends in one.
pub open spec fn join_spec(base: Seq<char>, part: Seq<char>) -> Seq<char> {
    if is_absolute(part) {
        part
    } else if base.len() == 0 || base.last() == '/' {
        base + part
    } else {
        base + seq!['/'] + part
    }
}

/// Whether a path starts at the root.
pub fn absolute(p: &str) -> (r: bool)
    ensures
        r == is_absolute(p@),
{
    let v = chars_of(p);
    v.len() > 0 && v[0] == '/'
}

/// One path followed by another.
pub fn join(base: &str, part: &str) -> (r: String)
    ensures
        r@ == join_spec(base@, part@),
{
    if absolute(part) {
        return owned(part);
    }
    let v = chars_of(base);
    let mut r = owned(base);
    if v.len() > 0 && v[v.len() - 1] != '/' {
        push_char(&mut r, '/');
    }
    r.append(part);
    r
}

/// Where the catalog is kept: `OMATIDE_DATA_DIR` if it is set, else
/// `omatide` under `XDG_DATA_HOME` where that is absolute (a relative one
/// is not one, by the spec), else under `~/.local/share`, else under the
/// working directory.
pub open spec fn chosen_dir_spec(over: Option<Seq<char>>, xdg: Option<Seq<char>>, home: Option<Seq<char>>) -> Seq<char> {
    match over {
        Some(dir) => dir,
        None => {
            let base = match xdg {
                Some(x) if is_absolute(x) => x,
                _ => match home {
                    Some(h) => join_spec(h, ".local/share"@),
                    None => "."@,
                },
            };
            join_spec(base, "omatide"@)
        },
    }
}

/// The data directory, from the three environment variables that choose
/// it.
pub fn chosen_dir(over: Option<&str>, xdg: Option<&str>, home: Option<&str>) -> (r: String)
    ensures
        r@ == chosen_dir_spec(
            match over { Some(s) => Some(s@), None => None },
            match xdg { Some(s) => Some(s@), None => None },
            match home { Some(s) => Some(s@), None => None },
        ),
{
    if let Some(dir) = over {
        return owned(dir);
    }
    let xdg_base = match xdg {
        Some(x) => if absolute(x) { Some(x) } else { None },
        None => None,
    };
    let base: String = match xdg_base {
        Some(x) => owned(x),
        None => match home {
            Some(h) => join(h, ".local/share"),
            None => owned("."),
        },
    };
    join(base.as_str(), "omatide")
}

/// The catalog file in a data directory.
pub fn catalog_path(dir: &str) -> (r: String)
    ensures
        r@ == join_spec(dir@, "stations.json"@),
{
    join(dir, "stations.json")
}

/// Where the settings are: `OMATIDE_CONFIG` if it is set, else
/// `omatide/config.toml` under `XDG_CONFIG_HOME` where that is absolute,
/// else under `~/.config`, with `/` standing for a home that isn't set.
pub open spec fn config_path_spec(over: Option<Seq<char>>, xdg: Option<Seq<char>>, home: Option<Seq<char>>) -> Seq<char> {
    match over {
        Some(p) => p,
        None => {
            let base = match xdg {
                Some(x) if is_absolute(x) => x,
                _ => join_spec(match home { Some(h) => h, None => "/"@ }, ".config"@),
            };
            join_spec(base, "omatide/config.toml"@)
        },
    }
}

/// The settings file, from the environment variables that choose it.
pub fn config_path(over: Option<&str>, xdg: Option<&str>, home: Option<&str>) -> (r: String)
    ensures
        r@ == config_path_spec(
            match over { Some(s) => Some(s@), None => None },
            match xdg { Some(s) => Some(s@), None => None },
            match home { Some(s) => Some(s@), None => None },
        ),
{
    if let Some(p) = over {
        return owned(p);
    }
    let xdg_base = match xdg {
        Some(x) => if absolute(x) { Some(x) } else { None },
        None => None,
    };
    let base: String = match xdg_base {
        Some(x) => owned(x),
        None => join(match home { Some(h) => h, None => "/" }, ".config"),
    };
    join(base.as_str(), "omatide/config.toml")
}

} // verus!
