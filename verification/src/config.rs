//! The configuration: where it is looked for, what is filled in where it is
//! silent, and what it must not say.

use vstd::prelude::*;

use crate::command::strings;

verus! {

/// Failures within the window before a ban, unless configured otherwise.
pub fn default_threshold() -> (r: usize)
    ensures
        r == 5,
{
    5
}

/// Length of the window in seconds, unless configured otherwise.
pub fn default_window_secs() -> (r: u64)
    ensures
        r == 600,
{
    600
}

/// Length of a ban in seconds, unless configured otherwise.
pub fn default_ban_secs() -> (r: u64)
    ensures
        r == 3600,
{
    3600
}

/// One log source to watch.
#[derive(Clone, Debug)]
pub struct WatchConfig {
    /// The systemd unit whose journal is followed.
    pub service: String,
}

/// `sshd` alone is watched.
pub open spec fn is_default_watch(watch: Seq<WatchConfig>) -> bool {
    watch.len() == 1 && watch[0].service@ == "sshd"@
}

/// The log sources that are watched, unless configured otherwise.
pub fn default_watch() -> (r: Vec<WatchConfig>)
    ensures
        is_default_watch(r@),
{
    vec![WatchConfig { service: "sshd".to_string() }]
}

/// The whole configuration.
#[derive(Clone, Debug)]
pub struct AppConfig {
    /// Failures within `window_secs` before an address is banned.
    pub threshold: usize,
    /// The sliding window, in seconds, failures are counted over.
    pub window_secs: u64,
    /// How long a ban lasts, in seconds, before nftables lifts it.
    pub ban_secs: u64,
    /// Further addresses that are never banned, besides those that never are
    /// whatever is written here.
    pub allowlist: Vec<String>,
    /// The log sources to watch.
    pub watch: Vec<WatchConfig>,
}

impl AppConfig {
    /// Every setting has its default.
    pub open spec fn is_builtin(self) -> bool {
        &&& self.threshold == 5
        &&& self.window_secs == 600
        &&& self.ban_secs == 3600
        &&& self.allowlist@.len() == 0
        &&& is_default_watch(self.watch@)
    }

    /// The settings under which bans can happen at all.
    pub open spec fn can_ban(self) -> bool {
        self.threshold > 0 && self.window_secs > 0 && self.ban_secs > 0
    }

    /// The configuration that is used where no file is found.
    pub fn builtin() -> (r: AppConfig)
        ensures
            r.is_builtin(),
    {
        AppConfig {
            threshold: default_threshold(),
            window_secs: default_window_secs(),
            ban_secs: default_ban_secs(),
            allowlist: Vec::new(),
            watch: default_watch(),
        }
    }
}

/// A configuration as it is written down, where every setting can be missing.
#[derive(Debug)]
pub struct RawConfig {
    pub threshold: Option<usize>,
    pub window_secs: Option<u64>,
    pub ban_secs: Option<u64>,
    pub allowlist: Option<Vec<String>>,
    pub watch: Option<Vec<WatchConfig>>,
}

impl RawConfig {
    /// `cfg` says what is written down, and the defaults where nothing is.
    pub open spec fn resolves_to(self, cfg: AppConfig) -> bool {
        &&& cfg.threshold == match self.threshold {
            Some(n) => n,
            None => 5,
        }
        &&& cfg.window_secs == match self.window_secs {
            Some(n) => n,
            None => 600,
        }
        &&& cfg.ban_secs == match self.ban_secs {
            Some(n) => n,
            None => 3600,
        }
        &&& match self.allowlist {
            Some(list) => cfg.allowlist == list,
            None => cfg.allowlist@.len() == 0,
        }
        &&& match self.watch {
            Some(list) => cfg.watch == list,
            None => is_default_watch(cfg.watch@),
        }
    }

    /// Fills in the defaults.
    pub fn resolve(self) -> (r: AppConfig)
        ensures
            self.resolves_to(r),
    {
        AppConfig {
            threshold: match self.threshold {
                Some(n) => n,
                None => default_threshold(),
            },
            window_secs: match self.window_secs {
                Some(n) => n,
                None => default_window_secs(),
            },
            ban_secs: match self.ban_secs {
                Some(n) => n,
                None => default_ban_secs(),
            },
            allowlist: match self.allowlist {
                Some(list) => list,
                None => Vec::new(),
            },
            watch: match self.watch {
                Some(list) => list,
                None => default_watch(),
            },
        }
    }
}

/// What came of reading a configuration file.
pub enum ConfigFile {
    /// It could not be read, for this reason.
    Unreadable(String),
    /// It is no configuration, for this reason.
    Malformed(String),
    /// It says this.
    Parsed(RawConfig),
}

/// The configuration that the file at `path` holds, or why it holds none.
pub fn load(path: &str, file: ConfigFile) -> (r: Result<AppConfig, String>)
    ensures
        match file {
            ConfigFile::Unreadable(why) => r is Err && r->Err_0@ == "failed to read "@ + path@
                + ": "@ + why@,
            ConfigFile::Malformed(why) => r is Err && r->Err_0@ == "failed to parse "@ + path@
                + ": "@ + why@,
            ConfigFile::Parsed(raw) => r is Ok && raw.resolves_to(r->Ok_0),
        },
{
    match file {
        ConfigFile::Unreadable(why) => {
            let mut e: String = "failed to read ".to_string();
            e.append(path);
            e.append(": ");
            e.append(why.as_str());
            Err(e)
        },
        ConfigFile::Malformed(why) => {
            let mut e: String = "failed to parse ".to_string();
            e.append(path);
            e.append(": ");
            e.append(why.as_str());
            Err(e)
        },
        ConfigFile::Parsed(raw) => Ok(raw.resolve()),
    }
}

/// A setting of zero, which would silently keep every ban from happening.
#[derive(Clone, Copy, Debug, PartialEq, Eq, Structural)]
pub enum ConfigError {
    ZeroThreshold,
    ZeroWindow,
    ZeroBan,
}

impl ConfigError {
    /// The text that describes the error.
    pub open spec fn text(self) -> Seq<char> {
        match self {
            ConfigError::ZeroThreshold => "threshold must be at least 1"@,
            ConfigError::ZeroWindow => "window_secs must be at least 1"@,
            ConfigError::ZeroBan => "ban_secs must be at least 1"@,
        }
    }

    /// Describes the error.
    pub fn message(&self) -> (r: String)
        ensures
            r@ == self.text(),
    {
        match self {
            ConfigError::ZeroThreshold => "threshold must be at least 1".to_string(),
            ConfigError::ZeroWindow => "window_secs must be at least 1".to_string(),
            ConfigError::ZeroBan => "ban_secs must be at least 1".to_string(),
        }
    }
}

/// Refuses a threshold, a window or a ban duration of zero, in this order.
pub fn validate(cfg: &AppConfig) -> (r: Result<(), ConfigError>)
    ensures
        r is Ok <==> cfg.can_ban(),
        r == Err::<(), ConfigError>(ConfigError::ZeroThreshold) <==> cfg.threshold == 0,
        r == Err::<(), ConfigError>(ConfigError::ZeroWindow) <==> cfg.threshold > 0
            && cfg.window_secs == 0,
        r == Err::<(), ConfigError>(ConfigError::ZeroBan) <==> cfg.threshold > 0 && cfg.window_secs
            > 0 && cfg.ban_secs == 0,
{
    if cfg.threshold == 0 {
        Err(ConfigError::ZeroThreshold)
    } else if cfg.window_secs == 0 {
        Err(ConfigError::ZeroWindow)
    } else if cfg.ban_secs == 0 {
        Err(ConfigError::ZeroBan)
    } else {
        Ok(())
    }
}

/// The configuration to run with, given what the file held, if there is one. A
/// file that cannot be used is an error, never passed over.
pub fn startup_config(loaded: Option<Result<AppConfig, String>>) -> (r: Result<AppConfig, String>)
    ensures
        match loaded {
            None => r is Ok && r->Ok_0.is_builtin(),
            Some(Err(why)) => r is Err && r->Err_0@ == why@,
            Some(Ok(cfg)) => if cfg.can_ban() {
                r == Ok::<AppConfig, String>(cfg)
            } else {
                r is Err && r->Err_0@ == "Config error: "@ + (if cfg.threshold == 0 {
                    ConfigError::ZeroThreshold
                } else if cfg.window_secs == 0 {
                    ConfigError::ZeroWindow
                } else {
                    ConfigError::ZeroBan
                }).text()
            },
        },
        r is Ok ==> r->Ok_0.can_ban(),
{
    let cfg: AppConfig = match loaded {
        None => AppConfig::builtin(),
        Some(Err(why)) => return Err(why),
        Some(Ok(cfg)) => cfg,
    };
    match validate(&cfg) {
        Ok(()) => Ok(cfg),
        Err(e) => {
            let mut text: String = "Config error: ".to_string();
            text.append(e.message().as_str());
            Err(text)
        },
    }
}

/// The file that was named if one was, else the one that was found.
pub fn choose_config<P>(named: Option<P>, found: Option<P>) -> (r: Option<P>)
    ensures
        r == if named is Some {
            named
        } else {
            found
        },
{
    match named {
        Some(path) => Some(path),
        None => found,
    }
}

/// The path of `name` in the directory `dir`. A separator is put between them
/// unless `dir` is empty or ends in one.
pub open spec fn joined(dir: Seq<char>, name: Seq<char>) -> Seq<char> {
    if dir.len() == 0 || dir.last() == '/' {
        dir + name
    } else {
        dir.push('/') + name
    }
}

fn join_path(dir: &str, name: &str) -> (r: String)
    ensures
        r@ == joined(dir@, name@),
{
    let mut r: String = String::new();
    r.append(dir);
    assert(r@ =~= dir@);
    let n: usize = dir.unicode_len();
    if n > 0 && dir.get_char(n - 1) != '/' {
        r.push('/');
    }
    r.append(name);
    r
}

/// `vortexwall/config.toml` in the directory `dir`.
pub open spec fn own_config(dir: Seq<char>) -> Seq<char> {
    joined(joined(dir, "vortexwall"@), "config.toml"@)
}

/// The files that are looked for, given the two environment variables.
pub open spec fn candidate_texts(
    xdg_config_home: Option<Seq<char>>,
    home: Option<Seq<char>>,
) -> Seq<Seq<char>> {
    (match xdg_config_home {
        Some(dir) => seq![own_config(dir)],
        None => seq![],
    }) + (match home {
        Some(dir) => seq![own_config(joined(dir, ".config"@))],
        None => seq![],
    }) + seq!["config.toml"@]
}

/// The view of an optional string.
pub open spec fn opt_text(s: Option<String>) -> Option<Seq<char>> {
    match s {
        Some(s) => Some(s@),
        None => None,
    }
}

/// The files that are looked for, in this order: `vortexwall/config.toml` in
/// `$XDG_CONFIG_HOME`, then in `.config` in the home directory, then `config.toml`
/// in the working directory. A place whose environment variable is not set is left
/// out.
pub fn config_candidates(xdg_config_home: Option<String>, home: Option<String>) -> (r: Vec<String>)
    ensures
        strings(r@) == candidate_texts(opt_text(xdg_config_home), opt_text(home)),
{
    let ghost xdg_text = opt_text(xdg_config_home);
    let ghost home_text = opt_text(home);
    let mut r: Vec<String> = Vec::new();
    match xdg_config_home {
        Some(dir) => {
            let own: String = join_path(dir.as_str(), "vortexwall");
            r.push(join_path(own.as_str(), "config.toml"));
        },
        None => {},
    }
    match home {
        Some(dir) => {
            let dot: String = join_path(dir.as_str(), ".config");
            let own: String = join_path(dot.as_str(), "vortexwall");
            r.push(join_path(own.as_str(), "config.toml"));
        },
        None => {},
    }
    r.push("config.toml".to_string());
    assert(strings(r@) =~= candidate_texts(xdg_text, home_text));
    r
}

/// The first of the candidates that exists, given which of them do.
pub fn default_config_path(candidates: Vec<String>, present: &Vec<bool>) -> (r: Option<String>)
    requires
        candidates@.len() == present@.len(),
    ensures
        match r {
            Some(path) => exists|i: int|
                0 <= i < candidates@.len() && #[trigger] present@[i] && path@ == candidates@[i]@
                    && forall|j: int| 0 <= j < i ==> !#[trigger] present@[j],
            None => forall|i: int| 0 <= i < candidates@.len() ==> !#[trigger] present@[i],
        },
{
    let mut i: usize = 0;
    while i < candidates.len()
        invariant
            i <= candidates@.len(),
            candidates@.len() == present@.len(),
            forall|j: int| 0 <= j < i ==> !#[trigger] present@[j],
        decreases candidates.len() - i,
    {
        if present[i] {
            return Some(candidates[i].clone());
        }
        i += 1;
    }
    None
}

/// A file that says nothing configures what no file does.
pub proof fn law_empty_file_is_builtin(raw: RawConfig, cfg: AppConfig)
    requires
        raw.threshold is None,
        raw.window_secs is None,
        raw.ban_secs is None,
        raw.allowlist is None,
        raw.watch is None,
        raw.resolves_to(cfg),
    ensures
        cfg.is_builtin(),
{
}

/// `config.toml` in the working directory is always looked for, and always last.
pub proof fn law_working_directory_comes_last(
    xdg_config_home: Option<Seq<char>>,
    home: Option<Seq<char>>,
)
    ensures
        candidate_texts(xdg_config_home, home).len() >= 1,
        candidate_texts(xdg_config_home, home).last() == "config.toml"@,
{
}

/// The defaults pass validation.
pub proof fn law_builtin_can_ban(cfg: AppConfig)
    requires
        cfg.is_builtin(),
    ensures
        cfg.can_ban(),
{
}

/// Every setting that is written down stands as it is written, whatever it is, and every
/// other one has its default.
pub proof fn law_written_settings_stand(raw: RawConfig, cfg: AppConfig)
    requires
        raw.resolves_to(cfg),
    ensures
        raw.threshold is Some ==> cfg.threshold == raw.threshold->0,
        raw.window_secs is Some ==> cfg.window_secs == raw.window_secs->0,
        raw.ban_secs is Some ==> cfg.ban_secs == raw.ban_secs->0,
        raw.allowlist is Some ==> cfg.allowlist@ == raw.allowlist->0@,
        raw.watch is Some ==> cfg.watch@ == raw.watch->0@,
        raw.threshold is None ==> cfg.threshold == 5,
        raw.window_secs is None ==> cfg.window_secs == 600,
        raw.ban_secs is None ==> cfg.ban_secs == 3600,
        raw.allowlist is None ==> cfg.allowlist@.len() == 0,
        raw.watch is None ==> cfg.watch@.len() == 1 && cfg.watch@[0].service@ == "sshd"@,
{
}

/// What is used where no file is found: five failures within ten minutes, a ban of an
/// hour, nobody on the allowlist, and `sshd` alone.
pub proof fn law_builtin(cfg: AppConfig)
    requires
        cfg.is_builtin(),
    ensures
        cfg.threshold == 5,
        cfg.window_secs == 10 * 60,
        cfg.ban_secs == 60 * 60,
        cfg.allowlist@.len() == 0,
        cfg.watch@.len() == 1,
        cfg.watch@[0].service@ == "sshd"@,
{
}

/// A configuration can lead to bans exactly if none of the three settings is zero.
pub proof fn law_can_ban(cfg: AppConfig)
    ensures
        cfg.can_ban() <==> !(cfg.threshold == 0 || cfg.window_secs == 0 || cfg.ban_secs == 0),
{
}

/// What is said of each setting that is zero.
pub proof fn law_config_errors()
    ensures
        ConfigError::ZeroThreshold.text() == "threshold must be at least 1"@,
        ConfigError::ZeroWindow.text() == "window_secs must be at least 1"@,
        ConfigError::ZeroBan.text() == "ban_secs must be at least 1"@,
{
}

/// The files that are looked for, and their order: under each directory that is given,
/// which may end in a separator or not, and then in the working directory.
pub proof fn law_candidates(xdg: Option<Seq<char>>, home: Option<Seq<char>>)
    ensures
        ({
            let dir = |d: Seq<char>|
                if d.len() > 0 && d.last() != '/' {
                    d + "/"@
                } else {
                    d
                };
            let own = dir(xdg->0) + "vortexwall/config.toml"@;
            let dot = dir(home->0) + ".config/vortexwall/config.toml"@;
            &&& xdg is Some && home is Some ==> candidate_texts(xdg, home) == seq![
                own,
                dot,
                "config.toml"@,
            ]
            &&& xdg is Some && home is None ==> candidate_texts(xdg, home) == seq![
                own,
                "config.toml"@,
            ]
            &&& xdg is None && home is Some ==> candidate_texts(xdg, home) == seq![
                dot,
                "config.toml"@,
            ]
            &&& xdg is None && home is None ==> candidate_texts(xdg, home) == seq!["config.toml"@]
        }),
{
    reveal_strlit("/");
    reveal_strlit("vortexwall");
    reveal_strlit("config.toml");
    reveal_strlit(".config");
    reveal_strlit("vortexwall/config.toml");
    reveal_strlit(".config/vortexwall/config.toml");
    let dir = |d: Seq<char>|
        if d.len() > 0 && d.last() != '/' {
            d + "/"@
        } else {
            d
        };
    if xdg is Some {
        let own = joined(xdg->0, "vortexwall"@);
        assert(own.last() == 'l');
        assert(own_config(xdg->0) =~= dir(xdg->0) + "vortexwall/config.toml"@);
    }
    if home is Some {
        let dot = joined(home->0, ".config"@);
        assert(dot.last() == 'g');
        let own = joined(dot, "vortexwall"@);
        assert(own.last() == 'l');
        assert(own_config(dot) =~= dir(home->0) + ".config/vortexwall/config.toml"@);
    }
    let all = candidate_texts(xdg, home);
    let last = seq!["config.toml"@];
    if xdg is Some && home is Some {
        assert(all =~= seq![own_config(xdg->0), own_config(joined(home->0, ".config"@)), last[0]]);
    } else if xdg is Some {
        assert(all =~= seq![own_config(xdg->0), last[0]]);
    } else if home is Some {
        assert(all =~= seq![own_config(joined(home->0, ".config"@)), last[0]]);
    } else {
        assert(all =~= last);
    }
}

/// An environment variable that is set counts, whatever it holds.
pub proof fn law_opt_text(s: Option<String>)
    ensures
        s is Some <==> opt_text(s) is Some,
        s is Some ==> opt_text(s)->0 == s->0@,
{
}

} // verus!
