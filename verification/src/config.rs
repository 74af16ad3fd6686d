//! Settings: how long records are kept, whether old records are archived,
//! and display preferences.

use vstd::prelude::*;
use crate::text::{chars_of, owned, same_text, string_of};

verus! {

/// Storage settings.
#[derive(Debug, Clone)]
pub struct StorageConfig {
    /// Records older than this many days leave the index.
    pub max_retention_days: u32,
    /// Whether records leaving the index are kept in yearly archives.
    pub auto_archive: bool,
}

/// Display settings.
#[derive(Debug, Clone)]
pub struct DisplayConfig {
    pub max_history_shown: usize,
    /// `auto`, `en` or `zh`.
    pub language: String,
    /// `interactive` or `simple`.
    pub tui_mode: String,
    /// Whether the interactive mode uses the terminal's alternate screen.
    pub alt_screen: bool,
}

/// All settings.
#[derive(Debug, Clone)]
pub struct Config {
    pub storage: StorageConfig,
    pub display: DisplayConfig,
}

impl Default for DisplayConfig {
    /// Ten rows, automatic language, interactive mode, no alternate screen.
    fn default() -> (r: Self)
        ensures
            r.max_history_shown == 10,
            r.language@ == "auto"@,
            r.tui_mode@ == "interactive"@,
            !r.alt_screen,
    {
        DisplayConfig {
            max_history_shown: 10,
            language: owned("auto"),
            tui_mode: owned("interactive"),
            alt_screen: false,
        }
    }
}

impl Default for Config {
    /// One year of retention with archiving, and the default display.
    fn default() -> (r: Self)
        ensures
            r.storage.max_retention_days == 365,
            r.storage.auto_archive,
            r.display.max_history_shown == 10,
            r.display.language@ == "auto"@,
            r.display.tui_mode@ == "interactive"@,
            !r.display.alt_screen,
    {
        Config {
            storage: StorageConfig { max_retention_days: 365, auto_archive: true },
            display: DisplayConfig::default(),
        }
    }
}

/// The part of `s` before its first `.` (all of `s` when it has none).
pub open spec fn before_dot(s: Seq<char>) -> Seq<char>
    decreases s.len(),
{
    if s.len() == 0 || s[0] == '.' {
        seq![]
    } else {
        seq![s[0]] + before_dot(s.skip(1))
    }
}

/// The part of a locale name such as `en_US.UTF-8` before the encoding.
pub fn locale_before_dot(s: &str) -> (r: String)
    ensures
        r@ == before_dot(s@),
{
    let cs = chars_of(s);
    let mut i: usize = 0;
    assert(cs@.take(0) + before_dot(cs@.skip(0)) =~= before_dot(s@)) by {
        assert(cs@.skip(0) =~= s@);
    }
    while i < cs.len() && cs[i] != '.'
        invariant
            cs@ == s@,
            i <= cs@.len(),
            before_dot(s@) == cs@.take(i as int) + before_dot(cs@.skip(i as int)),
        decreases cs@.len() - i,
    {
        let ghost rest = cs@.skip(i as int);
        assert(rest[0] == cs@[i as int]);
        assert(rest.skip(1) =~= cs@.skip(i + 1));
        assert(cs@.take(i + 1) =~= cs@.take(i as int) + seq![cs@[i as int]]);
        i += 1;
    }
    proof {
        let rest = cs@.skip(i as int);
        if i < cs@.len() {
            assert(rest[0] == cs@[i as int]);
        }
        assert(cs@.take(i as int) + before_dot(rest) =~= cs@.take(i as int));
    }
    string_of(&cs, 0, i)
}

/// The language to use: the configured one, or for `auto` the locale from
/// the `LANG` value (`en_US` when unset) up to its first dot.
pub open spec fn effective_language_spec(language: Seq<char>, lang_env: Option<Seq<char>>) -> Seq<
    char,
> {
    if language == "auto"@ {
        match lang_env {
            Some(v) => before_dot(v),
            None => "en_US"@,
        }
    } else {
        language
    }
}

impl Config {
    /// The language to use, given the value of the `LANG` environment
    /// variable (`None` when it is unset or not valid Unicode).
    pub fn get_effective_language(&self, lang_env: Option<&str>) -> (r: String)
        ensures
            r@ == effective_language_spec(
                self.display.language@,
                match lang_env {
                    Some(v) => Some(v@),
                    None => None,
                },
            ),
    {
        if same_text(self.display.language.as_str(), "auto") {
            match lang_env {
                Some(v) => locale_before_dot(v),
                None => owned("en_US"),
            }
        } else {
            self.display.language.clone()
        }
    }
}

impl Config {
    /// Where the settings are kept: `config.toml` in the default base
    /// directory under `home` (the current directory without one).
    pub fn get_config_path(home: Option<String>) -> (r: String)
        ensures
            r@ == crate::path::path_join(crate::store_manager::default_base(crate::path::opt_view(home)), "config.toml"@),
    {
        let base = crate::store_manager::base_dir_for(None, home);
        crate::path::join(base.as_str(), "config.toml")
    }

    /// Where the settings are kept for the current user: `config.toml` in
    /// the default base directory under the home directory the system
    /// reports (whichever it is).
    pub fn default_config_path() -> (r: String)
        ensures
            exists|h: Option<Seq<char>>|
                r@ == crate::path::path_join(crate::store_manager::default_base(h), "config.toml"@),
    {
        let home = crate::store_manager::home_dir_text();
        let ghost h = crate::path::opt_view(home);
        let r = Self::get_config_path(home);
        assert(r@ == crate::path::path_join(crate::store_manager::default_base(h), "config.toml"@));
        r
    }
}

} // verus!
