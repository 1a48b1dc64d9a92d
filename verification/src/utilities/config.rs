//! Process-wide configuration shared across services.

use vstd::prelude::*;

use crate::text::{chars_of, opt_view, trim, trimmed};
use crate::utilities::error::{UtilError, UtilErrorView};

verus! {

/// Configuration shared across services.
#[derive(Debug, Clone, PartialEq, Eq)]
pub struct Config {
    /// Directory under which mail and state are stored.
    pub data_dir: String,
    /// `tracing` env-filter directive (e.g. `info`, `snail=debug`).
    pub log_level: String,
}

/// What a [`Config`] holds.
pub struct ConfigView {
    pub data_dir: Seq<char>,
    pub log_level: Seq<char>,
}

impl View for Config {
    type V = ConfigView;

    open spec fn view(&self) -> ConfigView {
        ConfigView { data_dir: self.data_dir@, log_level: self.log_level@ }
    }
}

impl Default for Config {
    fn default() -> (r: Config)
        ensures
            r@.data_dir == "/var/lib/snail"@,
            r@.log_level == "info"@,
    {
        Config { data_dir: "/var/lib/snail".to_string(), log_level: "info".to_string() }
    }
}

/// Whether a variable is set to nothing but white space.
pub open spec fn blank(value: Option<Seq<char>>) -> bool {
    value matches Some(text) && trimmed(text).len() == 0
}

/// The error for a variable that is set but blank.
pub open spec fn blank_error(name: Seq<char>) -> UtilErrorView {
    UtilErrorView::Env { name, reason: "must not be empty"@ }
}

/// The configuration that the two variables make: each stands where it is set, and may
/// not be blank.
pub open spec fn configured(
    data_dir: Option<Seq<char>>,
    log_level: Option<Seq<char>>,
) -> Result<ConfigView, UtilErrorView> {
    if blank(data_dir) {
        Err(blank_error("SNAIL_DATA_DIR"@))
    } else if blank(log_level) {
        Err(blank_error("SNAIL_LOG"@))
    } else {
        Ok(
            ConfigView {
                data_dir: match data_dir {
                    Some(dir) => dir,
                    None => "/var/lib/snail"@,
                },
                log_level: match log_level {
                    Some(level) => level,
                    None => "info"@,
                },
            },
        )
    }
}

/// Whether a result is the configuration or the error that its model says.
pub open spec fn config_agrees(
    r: Result<Config, UtilError>,
    model: Result<ConfigView, UtilErrorView>,
) -> bool {
    match (r, model) {
        (Ok(c), Ok(v)) => c@ == v,
        (Err(e), Err(f)) => e@ == f,
        _ => false,
    }
}

impl Config {
    /// Build configuration from an arbitrary variable source, asking it for
    /// `SNAIL_DATA_DIR` and, unless that is blank, for `SNAIL_LOG`.
    ///
    /// # Errors
    /// Returns [`UtilError::Env`] if a recognised variable is present but blank.
    pub fn from_source<F: Fn(&str) -> Option<String>>(get: F) -> (r: Result<Config, UtilError>)
        requires
            forall|name: &str| #[trigger] call_requires(get, (name,)),
        ensures
            exists|dir: Option<String>, level: Option<String>|
                {
                    &&& #[trigger] call_ensures(get, ("SNAIL_DATA_DIR",), dir)
                    &&& blank(opt_view(dir)) || call_ensures(get, ("SNAIL_LOG",), level)
                    &&& config_agrees(r, #[trigger] configured(opt_view(dir), opt_view(level)))
                },
    {
        let dir = get("SNAIL_DATA_DIR");
        if is_blank(&dir) {
            let r = Config::from_values(dir, None);
            assert(config_agrees(r, configured(opt_view(dir), opt_view(None))));
            return r;
        }
        let level = get("SNAIL_LOG");
        let r = Config::from_values(dir, level);
        assert(config_agrees(r, configured(opt_view(dir), opt_view(level))));
        r
    }

    /// Build configuration from the values of `SNAIL_DATA_DIR` and `SNAIL_LOG`.
    ///
    /// # Errors
    /// Returns [`UtilError::Env`] if one is present but blank.
    pub fn from_values(data_dir: Option<String>, log_level: Option<String>) -> (r: Result<
        Config,
        UtilError,
    >)
        ensures
            config_agrees(r, configured(opt_view(data_dir), opt_view(log_level))),
    {
        let mut config = Config::default();
        if is_blank(&data_dir) {
            return Err(must_not_be_empty("SNAIL_DATA_DIR"));
        }
        if let Some(dir) = data_dir {
            config.data_dir = dir;
        }
        if is_blank(&log_level) {
            return Err(must_not_be_empty("SNAIL_LOG"));
        }
        if let Some(level) = log_level {
            config.log_level = level;
        }
        Ok(config)
    }
}

fn is_blank(value: &Option<String>) -> (r: bool)
    ensures
        r == blank(opt_view(*value)),
{
    match value {
        Some(text) => {
            let chars = chars_of(text.as_str());
            trim(chars.as_slice()).len() == 0
        },
        None => false,
    }
}

fn must_not_be_empty(name: &str) -> (r: UtilError)
    ensures
        r@ == blank_error(name@),
{
    UtilError::Env { name: name.to_string(), reason: "must not be empty".to_string() }
}

// ---------------------------------------------------------------------------
// Laws
// ---------------------------------------------------------------------------

/// Each variable stands as it is where it is set, and its default does where it is not; one
/// that is set to white space alone is refused, the data directory's first.
pub proof fn law_variables_stand_as_they_are(
    data_dir: Option<Seq<char>>,
    log_level: Option<Seq<char>>,
)
    ensures
        ({
            let r = configured(data_dir, log_level);
            let bad_dir = data_dir is Some && trimmed(data_dir->0).len() == 0;
            let bad_level = log_level is Some && trimmed(log_level->0).len() == 0;
            &&& r is Ok <==> !bad_dir && !bad_level
            &&& r is Ok && data_dir is Some ==> r->Ok_0.data_dir == data_dir->0
            &&& r is Ok && data_dir is None ==> r->Ok_0.data_dir == "/var/lib/snail"@
            &&& r is Ok && log_level is Some ==> r->Ok_0.log_level == log_level->0
            &&& r is Ok && log_level is None ==> r->Ok_0.log_level == "info"@
            &&& bad_dir ==> r == Err::<ConfigView, _>(
                UtilErrorView::Env { name: "SNAIL_DATA_DIR"@, reason: "must not be empty"@ },
            )
            &&& bad_level && !bad_dir ==> r == Err::<ConfigView, _>(
                UtilErrorView::Env { name: "SNAIL_LOG"@, reason: "must not be empty"@ },
            )
        }),
{
}

} // verus!
