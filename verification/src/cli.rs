//! What the command line asks for, and where the Ghostty config may live.

use vstd::prelude::*;

use crate::keybind::Platform;
use crate::text::{str_eq, surround};

verus! {

/// What the first command-line argument asks for.
#[derive(Clone, Copy, Debug, PartialEq, Eq, Structural)]
pub enum Command {
    /// `--help` or `-h`: print the usage.
    Help,
    /// `--version` or `-V`: print the version.
    Version,
    /// Anything else: a layout to split into.
    Split,
}

/// The command an argument asks for.
pub open spec fn command_spec(arg: Seq<char>) -> Command {
    if arg == "--help"@ || arg == "-h"@ {
        Command::Help
    } else if arg == "--version"@ || arg == "-V"@ {
        Command::Version
    } else {
        Command::Split
    }
}

/// `rel` appended to the path `base`, with a `/` between them unless `base`
/// is empty or already ends in one, as `Path::join` does for a relative path.
pub open spec fn join_path(base: Seq<char>, rel: Seq<char>) -> Seq<char> {
    if base.len() == 0 || base.last() == '/' {
        base + rel
    } else {
        base + seq!['/'] + rel
    }
}

/// The config file paths to look at, in order: on macOS first the one under
/// `~/Library/Application Support`, then `ghostty/config` under
/// `$XDG_CONFIG_HOME`, or under `$HOME/.config` when that is unset.
pub open spec fn config_candidates_spec(
    home: Seq<char>,
    xdg_config_home: Option<Seq<char>>,
    platform: Platform,
) -> Seq<Seq<char>> {
    let xdg = match xdg_config_home {
        Some(x) => x,
        None => home + "/.config"@,
    };
    let last = join_path(xdg, "ghostty/config"@);
    match platform {
        Platform::MacOs => seq![
            join_path(home, "Library/Application Support/com.mitchellh.ghostty/config"@),
            last,
        ],
        Platform::Linux => seq![last],
    }
}

/// One line `  - PATH` per path, joined by newlines.
pub open spec fn path_list(paths: Seq<Seq<char>>) -> Seq<char>
    decreases paths.len(),
{
    if paths.len() == 0 {
        Seq::empty()
    } else if paths.len() == 1 {
        "  - "@ + paths[0]
    } else {
        path_list(paths.drop_last()) + seq!['\n'] + "  - "@ + paths.last()
    }
}

/// Error: no config file at any of the paths.
pub open spec fn not_found_msg(paths: Seq<Seq<char>>) -> Seq<char> {
    "Ghostty config file not found. Searched:\n"@ + path_list(paths)
}

/// The command the first argument asks for.
pub fn command_for(arg: &str) -> (c: Command)
    ensures
        c == command_spec(arg@),
{
    if str_eq(arg, "--help") || str_eq(arg, "-h") {
        Command::Help
    } else if str_eq(arg, "--version") || str_eq(arg, "-V") {
        Command::Version
    } else {
        Command::Split
    }
}

/// `rel` joined to the path `base`.
fn join_path_str(base: &str, rel: &str) -> (p: String)
    ensures
        p@ == join_path(base@, rel@),
{
    let n = base.unicode_len();
    if n == 0 || base.get_char(n - 1) == '/' {
        let mut p = String::from_str(base);
        p.append(rel);
        p
    } else {
        proof {
            reveal_strlit("/");
            assert("/"@ =~= seq!['/']);
        }
        surround(base, "/", rel)
    }
}

/// The config file paths to look at, in the order they are tried.
pub fn config_candidates(home: &str, xdg_config_home: Option<&str>, platform: Platform) -> (v: Vec<
    String,
>)
    ensures
        v@.map_values(|p: String| p@) == config_candidates_spec(
            home@,
            match xdg_config_home {
                Some(x) => Some(x@),
                None => None,
            },
            platform,
        ),
{
    let mut candidates: Vec<String> = Vec::new();
    if platform == Platform::MacOs {
        candidates.push(join_path_str(home, "Library/Application Support/com.mitchellh.ghostty/config"));
    }
    let xdg_config = match xdg_config_home {
        Some(x) => String::from_str(x),
        None => {
            let mut d = String::from_str(home);
            d.append("/.config");
            d
        },
    };
    candidates.push(join_path_str(xdg_config.as_str(), "ghostty/config"));
    proof {
        let spec = config_candidates_spec(
            home@,
            match xdg_config_home {
                Some(x) => Some(x@),
                None => None,
            },
            platform,
        );
        assert(candidates@.map_values(|p: String| p@) =~= spec);
    }
    candidates
}

/// The error reported when none of `paths` exists.
pub fn config_not_found_message(paths: &Vec<String>) -> (m: String)
    ensures
        m@ == not_found_msg(paths@.map_values(|p: String| p@)),
{
    let ghost views = paths@.map_values(|p: String| p@);
    let mut list = String::new();
    let mut i: usize = 0;
    while i < paths.len()
        invariant
            i <= paths@.len(),
            views == paths@.map_values(|p: String| p@),
            list@ == path_list(views.take(i as int)),
        decreases paths@.len() - i,
    {
        if i > 0 {
            list.append("\n");
        }
        list.append("  - ");
        list.append(paths[i].as_str());
        proof {
            let pre = views.take(i as int);
            let cur = views.take(i + 1);
            assert(cur.drop_last() =~= pre);
            assert(cur.last() == paths@[i as int]@);
            reveal_strlit("\n");
            if i > 0 {
                assert("\n"@ =~= seq!['\n']);
            } else {
                assert(cur.len() == 1);
            }
        }
        i = i + 1;
    }
    assert(views.take(paths@.len() as int) =~= views);
    let mut m = String::from_str("Ghostty config file not found. Searched:\n");
    m.append(list.as_str());
    m
}

/// The XDG location is searched on every platform and always last: it is
/// `ghostty/config` under `$XDG_CONFIG_HOME`, or under `$HOME/.config` when
/// that is unset. macOS searches exactly one more path first, the one under
/// `~/Library/Application Support`; other platforms search only the XDG one.
pub proof fn config_candidates_law(home: Seq<char>, xdg_config_home: Option<Seq<char>>)
    ensures
        config_candidates_spec(home, xdg_config_home, Platform::Linux) == seq![
            join_path(
                match xdg_config_home {
                    Some(x) => x,
                    None => home + "/.config"@,
                },
                "ghostty/config"@,
            ),
        ],
        config_candidates_spec(home, xdg_config_home, Platform::MacOs).len() == 2,
        config_candidates_spec(home, xdg_config_home, Platform::MacOs)[0] == join_path(
            home,
            "Library/Application Support/com.mitchellh.ghostty/config"@,
        ),
        config_candidates_spec(home, xdg_config_home, Platform::MacOs)[1] == config_candidates_spec(
            home,
            xdg_config_home,
            Platform::Linux,
        )[0],
{
}

/// `join_path` puts exactly one `/` between a non-empty base without a
/// trailing `/` and the relative part, and none otherwise.
pub proof fn join_path_law(base: Seq<char>, rel: Seq<char>)
    ensures
        join_path(base, rel).take(base.len() as int) == base,
        join_path(base, rel).len() == base.len() + rel.len() + if base.len() == 0 || base.last()
            == '/' {
            0int
        } else {
            1int
        },
        join_path(base, rel).skip(join_path(base, rel).len() - rel.len()) == rel,
{
    let j = join_path(base, rel);
    if base.len() == 0 || base.last() == '/' {
        assert(j.take(base.len() as int) =~= base);
        assert(j.skip(j.len() - rel.len()) =~= rel);
    } else {
        assert(j.take(base.len() as int) =~= base);
        assert(j.skip(j.len() - rel.len()) =~= rel);
    }
}

} // verus!
