//! Application settings and their defaults.

use vstd::prelude::*;
use crate::paths::{joined_path, path_join};

verus! {

/// The default chat-completions endpoint.
pub fn default_ai_base_url() -> (r: String)
    ensures
        r@ == "https://api.openai.com/v1"@,
{
    "https://api.openai.com/v1".to_owned()
}

/// The default chat model.
pub fn default_ai_model() -> (r: String)
    ensures
        r@ == "gpt-4o-mini"@,
{
    "gpt-4o-mini".to_owned()
}

/// `dirs::home_dir()`, as text. It reads the environment and the user
/// database, so nothing is stated of what comes back. A home path that is
/// not valid UTF-8 is converted with `to_string_lossy`, so its invalid
/// sequences read as U+FFFD.
#[verifier::external_body]
fn home_dir() -> (r: Option<String>) {
    dirs::home_dir().map(|p| p.to_string_lossy().into_owned())
}

/// The directory used in place of the home directory: the home directory
/// when there is one, the current directory `.` otherwise.
pub open spec fn home_or_current(home: Option<Seq<char>>) -> Seq<char> {
    match home {
        Some(h) => h,
        None => "."@,
    }
}

/// The text of an optional string slice.
pub open spec fn opt_str_view(home: Option<&str>) -> Option<Seq<char>> {
    match home {
        Some(h) => Some(h@),
        None => None,
    }
}

/// The application directory under a home directory.
pub open spec fn ekuke_dir_in(home: Seq<char>) -> Seq<char> {
    joined_path(home, ".ekuke"@)
}

/// The application directory for a looked-up home directory: `.ekuke` in
/// it, or in the current directory when there is none.
pub fn ekuke_dir_for(home: Option<&str>) -> (r: String)
    ensures
        r@ == ekuke_dir_in(home_or_current(opt_str_view(home))),
{
    let base: &str = match home {
        Some(h) => h,
        None => ".",
    };
    path_join(base, ".ekuke")
}

/// The settings file for a looked-up home directory: `config.json` in the
/// application directory.
pub fn config_path_for(home: Option<&str>) -> (r: String)
    ensures
        r@ == joined_path(ekuke_dir_in(home_or_current(opt_str_view(home))), "config.json"@),
{
    let dir = ekuke_dir_for(home);
    path_join(dir.as_str(), "config.json")
}

/// The settings file: `config.json` in the application directory.
pub fn config_path() -> (r: String)
    ensures
        exists|home: Option<Seq<char>>| r@ == joined_path(ekuke_dir_in(home_or_current(home)), "config.json"@),
{
    let home = home_dir();
    let r = match &home {
        Some(h) => config_path_for(Some(h.as_str())),
        None => config_path_for(None),
    };
    proof {
        let hv: Option<Seq<char>> = match home {
            Some(h) => Some(h@),
            None => None,
        };
        assert(r@ == joined_path(ekuke_dir_in(home_or_current(hv)), "config.json"@));
    }
    r
}

/// The settings of the application. The assistant's sampling temperature,
/// a float, is kept beside these by the application shell.
#[derive(Debug)]
pub struct Config {
    pub default_author: String,
    pub plugins_dir: String,
    pub cases_dir: String,
    pub api_keys: Vec<(String, String)>,
    pub ui_theme: String,
    pub proxy_enabled: bool,
    pub proxy_url: String,
    pub tor_enabled: bool,
    pub ai_base_url: String,
    pub ai_api_key: String,
    pub ai_model: String,
    pub ai_enabled: bool,
}

impl Config {
    /// The defaults, with the application directory `ekuke_dir`.
    pub fn defaults_in(ekuke_dir: &str) -> (c: Config)
        ensures
            c.default_author@ == "Anonymous-beta"@,
            c.plugins_dir@ == joined_path(ekuke_dir@, "plugins"@),
            c.cases_dir@ == joined_path(ekuke_dir@, "cases"@),
            c.api_keys@.len() == 0,
            c.ui_theme@ == "dark"@,
            !c.proxy_enabled,
            c.proxy_url@.len() == 0,
            !c.tor_enabled,
            c.ai_base_url@ == "https://api.openai.com/v1"@,
            c.ai_api_key@.len() == 0,
            c.ai_model@ == "gpt-4o-mini"@,
            !c.ai_enabled,
    {
        Config {
            default_author: "Anonymous-beta".to_owned(),
            plugins_dir: path_join(ekuke_dir, "plugins"),
            cases_dir: path_join(ekuke_dir, "cases"),
            api_keys: Vec::new(),
            ui_theme: "dark".to_owned(),
            proxy_enabled: false,
            proxy_url: String::new(),
            tor_enabled: false,
            ai_base_url: default_ai_base_url(),
            ai_api_key: String::new(),
            ai_model: default_ai_model(),
            ai_enabled: false,
        }
    }
}

impl Config {
    /// The defaults for a looked-up home directory: the application
    /// directory is `.ekuke` in it, or in `.` when there is none.
    pub fn defaults_for(home: Option<&str>) -> (c: Config)
        ensures
            c.plugins_dir@ == joined_path(ekuke_dir_in(home_or_current(opt_str_view(home))), "plugins"@),
            c.cases_dir@ == joined_path(ekuke_dir_in(home_or_current(opt_str_view(home))), "cases"@),
            c.default_author@ == "Anonymous-beta"@,
            c.api_keys@.len() == 0,
            c.ui_theme@ == "dark"@,
            !c.proxy_enabled,
            c.proxy_url@.len() == 0,
            !c.tor_enabled,
            c.ai_base_url@ == "https://api.openai.com/v1"@,
            c.ai_api_key@.len() == 0,
            c.ai_model@ == "gpt-4o-mini"@,
            !c.ai_enabled,
    {
        let dir = ekuke_dir_for(home);
        Config::defaults_in(dir.as_str())
    }
}

impl Default for Config {
    /// The defaults under the user's application directory.
    fn default() -> (c: Config)
        ensures
            exists|home: Option<Seq<char>>|
                c.plugins_dir@ == joined_path(ekuke_dir_in(home_or_current(home)), "plugins"@)
                    && c.cases_dir@ == joined_path(ekuke_dir_in(home_or_current(home)), "cases"@),
            c.default_author@ == "Anonymous-beta"@,
            c.api_keys@.len() == 0,
            c.ui_theme@ == "dark"@,
            !c.proxy_enabled,
            c.proxy_url@.len() == 0,
            !c.tor_enabled,
            c.ai_base_url@ == "https://api.openai.com/v1"@,
            c.ai_api_key@.len() == 0,
            c.ai_model@ == "gpt-4o-mini"@,
            !c.ai_enabled,
    {
        let home = home_dir();
        let c = match &home {
            Some(h) => Config::defaults_for(Some(h.as_str())),
            None => Config::defaults_for(None),
        };
        proof {
            let hv: Option<Seq<char>> = match home {
                Some(h) => Some(h@),
                None => None,
            };
            assert(c.plugins_dir@ == joined_path(ekuke_dir_in(home_or_current(hv)), "plugins"@));
        }
        c
    }
}

/// The value for a key in a list of key/value settings, the last entry
/// winning.
pub open spec fn setting_get(kvs: Seq<(Seq<char>, Seq<char>)>, key: Seq<char>) -> Option<Seq<char>>
    decreases kvs.len(),
{
    if kvs.len() == 0 {
        None
    } else if kvs.last().0 == key {
        Some(kvs.last().1)
    } else {
        setting_get(kvs.drop_last(), key)
    }
}

/// The text of key/value settings.
pub open spec fn settings_view(kvs: Seq<(String, String)>) -> Seq<(Seq<char>, Seq<char>)> {
    kvs.map_values(|kv: (String, String)| (kv.0@, kv.1@))
}

/// The configuration handed to a plugin: the stored API keys, then the
/// run's own string values on top (a later entry wins).
pub fn plugin_config(api_keys: &Vec<(String, String)>, overrides: &Vec<(String, String)>) -> (r: Vec<
    (String, String),
>)
    ensures
        settings_view(r@) == settings_view(api_keys@) + settings_view(overrides@),
{
    let mut out: Vec<(String, String)> = Vec::new();
    let mut i: usize = 0;
    while i < api_keys.len()
        invariant
            i <= api_keys.len(),
            settings_view(out@) == settings_view(api_keys@).take(i as int),
        decreases api_keys.len() - i,
    {
        let kv = (api_keys[i].0.clone(), api_keys[i].1.clone());
        let ghost before = out@;
        out.push(kv);
        assert(settings_view(out@) =~= settings_view(before).push((kv.0@, kv.1@)));
        assert(settings_view(out@) =~= settings_view(api_keys@).take(i + 1));
        i += 1;
    }
    let mut j: usize = 0;
    while j < overrides.len()
        invariant
            j <= overrides.len(),
            settings_view(out@) == settings_view(api_keys@) + settings_view(overrides@).take(j as int),
        decreases overrides.len() - j,
    {
        let kv = (overrides[j].0.clone(), overrides[j].1.clone());
        let ghost before = out@;
        out.push(kv);
        assert(settings_view(out@) =~= settings_view(before).push((kv.0@, kv.1@)));
        assert(settings_view(out@) =~= settings_view(api_keys@) + settings_view(overrides@).take(j + 1));
        j += 1;
    }
    assert(settings_view(overrides@).take(j as int) =~= settings_view(overrides@));
    assert(settings_view(api_keys@).take(i as int) =~= settings_view(api_keys@));
    out
}

} // verus!
