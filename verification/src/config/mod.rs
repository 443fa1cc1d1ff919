//! The configuration: its model, where it is kept, and how a first one is
//! made.

pub mod generate;
pub mod types;

use vstd::prelude::*;
use crate::text;

verus! {

/// `name` inside the directory `dir`.
pub open spec fn in_dir(dir: Seq<char>, name: Seq<char>) -> Seq<char> {
    if dir.len() == 0 || dir.last() == '/' {
        dir + name
    } else {
        dir + "/"@ + name
    }
}

pub fn join_path(dir: &str, name: &str) -> (r: String)
    ensures
        r@ == in_dir(dir@, name@),
{
    let v = text::chars_of(dir);
    if v.len() == 0 || v[v.len() - 1] == '/' {
        text::cat(dir, name)
    } else {
        text::cat3(dir, "/", name)
    }
}

/// The path of the config file, given the values of `XDG_CONFIG_HOME` and
/// `HOME`.
pub open spec fn config_path(xdg: Option<Seq<char>>, home: Option<Seq<char>>) -> Seq<char> {
    match xdg {
        Some(x) => in_dir(in_dir(text::without_trailing(x, '/'), "fanctl"@), "fanctl.yaml"@),
        None => in_dir(
            in_dir(
                in_dir(
                    match home {
                        Some(h) => h,
                        None => "/root"@,
                    },
                    ".config"@,
                ),
                "fanctl"@,
            ),
            "fanctl.yaml"@,
        ),
    }
}

/// Resolve the default config path: `$XDG_CONFIG_HOME/fanctl/fanctl.yaml`,
/// falling back to `~/.config/fanctl/fanctl.yaml`. The caller passes the two
/// environment variables, if they are set.
pub fn default_path(xdg_config_home: Option<&str>, home: Option<&str>) -> (r: String)
    ensures
        r@ == config_path(xdg_config_home.deep_view(), home.deep_view()),
{
    match xdg_config_home {
        Some(xdg) => {
            let base = text::trim_end_matches(xdg, '/');
            let dir = join_path(base.as_str(), "fanctl");
            join_path(dir.as_str(), "fanctl.yaml")
        },
        None => {
            let base = match home {
                Some(h) => text::owned(h),
                None => text::owned("/root"),
            };
            let conf = join_path(base.as_str(), ".config");
            let dir = join_path(conf.as_str(), "fanctl");
            join_path(dir.as_str(), "fanctl.yaml")
        },
    }
}

/// The config path to use: the one asked for, or else the default.
pub fn resolve_config_path(
    arg: &Option<String>,
    xdg_config_home: Option<&str>,
    home: Option<&str>,
) -> (r: String)
    ensures
        r@ == (match arg {
            Some(p) => p@,
            None => config_path(xdg_config_home.deep_view(), home.deep_view()),
        }),
{
    match arg {
        Some(p) => p.clone(),
        None => default_path(xdg_config_home, home),
    }
}

/// The config is kept in `fanctl/fanctl.yaml` in the directory for configs:
/// the one that is set, or `.config` at home.
pub proof fn law_config_path(xdg: Seq<char>, home: Seq<char>)
    requires
        xdg.len() > 0,
        xdg[xdg.len() - 1] != '/',
        home.len() > 0,
        home[home.len() - 1] != '/',
    ensures
        config_path(Some(xdg), None) == xdg + "/fanctl/fanctl.yaml"@,
        config_path(Some(xdg), Some(home)) == xdg + "/fanctl/fanctl.yaml"@,
        config_path(None, Some(home)) == home + "/.config/fanctl/fanctl.yaml"@,
        config_path(None, None) == "/root/.config/fanctl/fanctl.yaml"@,
{
    reveal_strlit("/");
    reveal_strlit("fanctl");
    reveal_strlit("fanctl.yaml");
    reveal_strlit(".config");
    reveal_strlit("/root");
    reveal_strlit("/fanctl/fanctl.yaml");
    reveal_strlit("/.config/fanctl/fanctl.yaml");
    reveal_strlit("/root/.config/fanctl/fanctl.yaml");
    text::law_ends_are_stripped(Seq::empty(), xdg, '/');
    assert(config_path(Some(xdg), None) =~= xdg + "/fanctl/fanctl.yaml"@);
    assert(config_path(None, Some(home)) =~= home + "/.config/fanctl/fanctl.yaml"@);
    assert(config_path(None, None) =~= "/root/.config/fanctl/fanctl.yaml"@);
}

} // verus!
