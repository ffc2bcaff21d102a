//! The configuration structures: each is read out of a `ConfigValue` tree,
//! with its defaults, and each reader's contract states exactly which value
//! every field takes. A reader that rejects an ill-typed node states that
//! expectation as a precondition instead.
use vstd::prelude::*;
use vstd::string::StringExecFns;

use crate::config_value::spec_assoc_get;
use crate::config_value::ConfigData;
use crate::config_value::ConfigSource;
use crate::config_value::ConfigValue;
use crate::strutil;
use crate::strutil::lower_of;
use crate::strutil::spec_split;

verus! {

/// The location of the cache files.
#[derive(Debug, Clone)]
pub struct CacheConfig {
    pub path: String,
}

impl CacheConfig {
    /// `default_path` stands in for the cache-home directory that the
    /// surrounding program resolves from the environment.
    pub fn from_config_value(config_value: &ConfigValue, default_path: &str) -> (r: Self)
        requires
            config_value.spec_get("path"@) matches Some(v) ==> v.spec_as_str() is Some,
        ensures
            r.path@ == match config_value.spec_get_as_str("path"@) {
                Some(s) => s,
                None => default_path@,
            },
    {
        CacheConfig {
            path: match config_value.get("path") {
                Some(value) => value.as_str().unwrap(),
                None => default_path.to_owned(),
            },
        }
    }
}

/// How commands defined in configuration files may be split into words.
#[derive(Debug, Clone)]
pub struct ConfigCommandsConfig {
    pub split_on_dash: bool,
    pub split_on_slash: bool,
}

impl ConfigCommandsConfig {
    pub fn from_config_value(config_value: &ConfigValue) -> (r: Self)
        requires
            config_value.spec_get("split_on_dash"@) matches Some(v) ==> v.spec_as_bool() is Some,
            config_value.spec_get("split_on_slash"@) matches Some(v) ==> v.spec_as_bool() is Some,
        ensures
            r.split_on_dash == config_value.spec_get_as_bool("split_on_dash"@).unwrap_or(true),
            r.split_on_slash == config_value.spec_get_as_bool("split_on_slash"@).unwrap_or(true),
    {
        ConfigCommandsConfig {
            split_on_dash: match config_value.get("split_on_dash") {
                Some(value) => value.as_bool().unwrap(),
                None => true,
            },
            split_on_slash: match config_value.get("split_on_slash") {
                Some(value) => value.as_bool().unwrap(),
                None => true,
            },
        }
    }
}

/// Whether and how makefile targets become commands.
#[derive(Debug, Clone)]
pub struct MakefileCommandsConfig {
    pub enabled: bool,
    pub split_on_dash: bool,
    pub split_on_slash: bool,
}

impl MakefileCommandsConfig {
    pub fn from_config_value(config_value: &ConfigValue) -> (r: Self)
        requires
            config_value.spec_get("enabled"@) matches Some(v) ==> v.spec_as_bool() is Some,
            config_value.spec_get("split_on_dash"@) matches Some(v) ==> v.spec_as_bool() is Some,
            config_value.spec_get("split_on_slash"@) matches Some(v) ==> v.spec_as_bool() is Some,
        ensures
            r.enabled == config_value.spec_get_as_bool("enabled"@).unwrap_or(true),
            r.split_on_dash == config_value.spec_get_as_bool("split_on_dash"@).unwrap_or(true),
            r.split_on_slash == config_value.spec_get_as_bool("split_on_slash"@).unwrap_or(true),
    {
        MakefileCommandsConfig {
            enabled: match config_value.get("enabled") {
                Some(value) => value.as_bool().unwrap(),
                None => true,
            },
            split_on_dash: match config_value.get("split_on_dash") {
                Some(value) => value.as_bool().unwrap(),
                None => true,
            },
            split_on_slash: match config_value.get("split_on_slash") {
                Some(value) => value.as_bool().unwrap(),
                None => true,
            },
        }
    }
}

/// One organization handle, its trust, and an optional dedicated worktree.
#[derive(Debug, Clone)]
pub struct OrgConfig {
    pub handle: String,
    pub trusted: bool,
    pub worktree: Option<String>,
}

impl OrgConfig {
    /// Reads `handle=worktree`; everything before the first `=` is the
    /// handle, the part between the first and second `=` the worktree.
    pub fn from_str(value_str: &str) -> (r: Self)
        ensures
            r.handle@ == spec_split(value_str@, '=')[0],
            r.trusted == true,
            match r.worktree {
                Some(w) => spec_split(value_str@, '=').len() >= 2 && w@ == spec_split(
                    value_str@,
                    '=',
                )[1],
                None => spec_split(value_str@, '=').len() == 1,
            },
    {
        let mut pieces = strutil::split_str(value_str, '=');
        let worktree: Option<String> = if pieces.len() >= 2 {
            Some(pieces.remove(1))
        } else {
            None
        };
        let handle = pieces.remove(0);
        OrgConfig { handle, trusted: true, worktree }
    }

    pub fn from_config_value(config_value: &ConfigValue) -> (r: Self)
        requires
            !config_value.spec_is_str() ==> config_value.spec_get_as_str("handle"@) is Some,
        ensures
            config_value.spec_is_str() ==> {
                let s = config_value.spec_as_str()->Some_0;
                &&& r.handle@ == spec_split(s, '=')[0]
                &&& r.trusted == true
                &&& (match r.worktree {
                    Some(w) => spec_split(s, '=').len() >= 2 && w@ == spec_split(s, '=')[1],
                    None => spec_split(s, '=').len() == 1,
                })
            },
            !config_value.spec_is_str() ==> {
                &&& r.handle@ == config_value.spec_get_as_str("handle"@)->Some_0
                &&& r.trusted == config_value.spec_get_as_bool("trusted"@).unwrap_or(false)
                &&& (match r.worktree {
                    Some(w) => config_value.spec_get_as_str("worktree"@) == Some(w@),
                    None => config_value.spec_get_as_str("worktree"@) is None,
                })
            },
    {
        if config_value.is_str() {
            let value_str = config_value.as_str().unwrap();
            return OrgConfig::from_str(value_str.as_str());
        }
        OrgConfig {
            handle: config_value.get_as_str("handle").unwrap(),
            trusted: match config_value.get_as_bool("trusted") {
                Some(b) => b,
                None => false,
            },
            worktree: config_value.get_as_str("worktree"),
        }
    }
}

/// How long to wait on a remote listing before giving up.
#[derive(Debug, Clone)]
pub struct CloneConfig {
    pub ls_remote_timeout_seconds: u64,
}

impl CloneConfig {
    pub fn from_config_value(config_value: Option<&ConfigValue>) -> (r: Self)
        ensures
            r.ls_remote_timeout_seconds == match config_value {
                Some(cv) => cv.spec_get_as_unsigned("ls_remote_timeout_seconds"@).unwrap_or(5),
                None => 5u64,
            },
    {
        match config_value {
            None => CloneConfig { ls_remote_timeout_seconds: 5 },
            Some(cv) => CloneConfig {
                ls_remote_timeout_seconds: match cv.get_as_unsigned_integer(
                    "ls_remote_timeout_seconds",
                ) {
                    Some(value) => value,
                    None => 5,
                },
            },
        }
    }
}

/// Whether `up` may bootstrap configuration suggestions on its own.
#[derive(Debug, Clone)]
pub struct UpCommandConfig {
    pub auto_bootstrap: bool,
}

impl UpCommandConfig {
    pub fn from_config_value(config_value: Option<&ConfigValue>) -> (r: Self)
        requires
            match config_value {
                Some(cv) => !cv.spec_has_label("git_repo"@) ==> (cv.spec_get("auto_bootstrap"@)
                    matches Some(v) ==> v.spec_as_bool() is Some),
                None => true,
            },
        ensures
            r.auto_bootstrap == match config_value {
                Some(cv) => if !cv.spec_has_label("git_repo"@) {
                    cv.spec_get_as_bool("auto_bootstrap"@).unwrap_or(true)
                } else {
                    true
                },
                None => true,
            },
    {
        if let Some(config_value) = config_value {
            if let Some(config_value) = config_value.reject_label("git_repo") {
                return UpCommandConfig {
                    auto_bootstrap: match config_value.get("auto_bootstrap") {
                        Some(value) => value.as_bool().unwrap(),
                        None => true,
                    },
                };
            }
        }
        UpCommandConfig { auto_bootstrap: true }
    }
}

/// One shell alias, optionally pointing at a distinct target command.
#[derive(Debug, Clone)]
pub struct ShellAliasConfig {
    pub alias: String,
    pub target: Option<String>,
}

impl ShellAliasConfig {
    pub fn from_config_value(config_value: &ConfigValue) -> (r: Option<Self>)
        ensures
            match r {
                Some(c) => {
                    if config_value.spec_is_str() {
                        c.alias@ == config_value.spec_as_str()->Some_0 && c.target is None
                    } else {
                        &&& config_value.spec_get_as_str("alias"@) == Some(c.alias@)
                        &&& (match c.target {
                            Some(t) => config_value.spec_get_as_str("target"@) == Some(t@),
                            None => config_value.spec_get_as_str("target"@) is None,
                        })
                    }
                },
                None => !config_value.spec_is_str() && config_value.spec_get_as_str("alias"@)
                    is None,
            },
    {
        if let Some(value) = config_value.as_str() {
            return Some(ShellAliasConfig { alias: value, target: None });
        }
        match config_value.get_as_str("alias") {
            Some(alias) => {
                let target = config_value.get_as_str("target");
                Some(ShellAliasConfig { alias, target })
            },
            None => None,
        }
    }
}

/// What one alias node denotes, when it parses.
pub open spec fn spec_shell_alias(cv: ConfigValue) -> Option<(Seq<char>, Option<Seq<char>>)> {
    if cv.spec_is_str() {
        Some((cv.spec_as_str()->Some_0, None))
    } else {
        match cv.spec_get_as_str("alias"@) {
            Some(a) => Some((a, cv.spec_get_as_str("target"@))),
            None => None,
        }
    }
}

/// The aliases the nodes of `a` denote, keeping those that parse.
pub open spec fn spec_shell_aliases(a: Seq<ConfigValue>) -> Seq<(Seq<char>, Option<Seq<char>>)>
    decreases a.len(),
{
    if a.len() == 0 {
        Seq::empty()
    } else {
        let rest = spec_shell_aliases(a.drop_first());
        match spec_shell_alias(a[0]) {
            Some(x) => seq![x] + rest,
            None => rest,
        }
    }
}

pub proof fn lemma_shell_aliases_push(a: Seq<ConfigValue>, x: ConfigValue)
    ensures
        spec_shell_aliases(a.push(x)) == spec_shell_aliases(a) + (match spec_shell_alias(x) {
            Some(y) => seq![y],
            None => Seq::empty(),
        }),
    decreases a.len(),
{
    let g: Seq<(Seq<char>, Option<Seq<char>>)> = match spec_shell_alias(x) {
        Some(y) => seq![y],
        None => Seq::empty(),
    };
    if a.len() == 0 {
        assert(a.push(x).len() == 1);
        assert(a.push(x)[0] == x);
        assert(a.push(x).drop_first() =~= Seq::<ConfigValue>::empty());
        assert(spec_shell_aliases(a.push(x).drop_first()) == Seq::<
            (Seq<char>, Option<Seq<char>>),
        >::empty());
        assert(spec_shell_aliases(a) == Seq::<(Seq<char>, Option<Seq<char>>)>::empty());
        match spec_shell_alias(x) {
            Some(y) => {
                assert(spec_shell_aliases(a.push(x)) =~~= spec_shell_aliases(a) + g);
            },
            None => {
                assert(spec_shell_aliases(a.push(x)) =~~= spec_shell_aliases(a) + g);
            },
        }
    } else {
        assert(a.push(x)[0] == a[0]);
        assert(a.push(x).drop_first() =~= a.drop_first().push(x));
        lemma_shell_aliases_push(a.drop_first(), x);
        let rest = spec_shell_aliases(a.drop_first());
        match spec_shell_alias(a[0]) {
            Some(y0) => {
                assert(seq![y0] + (rest + g) =~~= (seq![y0] + rest) + g);
            },
            None => {},
        }
        assert(spec_shell_aliases(a.push(x)) =~~= spec_shell_aliases(a) + g);
    }
}

pub open spec fn shell_aliases_model(s: Seq<ShellAliasConfig>) -> Seq<
    (Seq<char>, Option<Seq<char>>),
> {
    s.map_values(
        |c: ShellAliasConfig|
            (
                c.alias@,
                match c.target {
                    Some(t) => Some(t@),
                    None => None,
                },
            ),
    )
}

/// The aliases exported at shell activation.
#[derive(Debug, Clone)]
pub struct ShellAliasesConfig {
    pub aliases: Vec<ShellAliasConfig>,
}

impl ShellAliasesConfig {
    /// Every array element that parses contributes one alias, in order;
    /// anything but an array yields none.
    pub fn from_config_value(config_value: Option<&ConfigValue>) -> (r: Self)
        ensures
            shell_aliases_model(r.aliases@) == match config_value {
                Some(cv) => match cv.spec_as_array() {
                    Some(arr) => spec_shell_aliases(arr),
                    None => Seq::<(Seq<char>, Option<Seq<char>>)>::empty(),
                },
                None => Seq::<(Seq<char>, Option<Seq<char>>)>::empty(),
            },
    {
        let mut aliases: Vec<ShellAliasConfig> = Vec::new();
        proof {
            assert(shell_aliases_model(aliases@) =~~= Seq::<
                (Seq<char>, Option<Seq<char>>),
            >::empty());
        }
        if let Some(config_value) = config_value {
            if let Some(array) = config_value.as_array() {
                let ghost arrs = array@;
                let n = array.len();
                let mut i: usize = 0;
                proof {
                    assert(arrs.take(0) =~= Seq::<ConfigValue>::empty());
                }
                #[verifier::loop_isolation(false)]
                while i < n
                    invariant
                        i <= n,
                        shell_aliases_model(aliases@) =~~= spec_shell_aliases(
                            arrs.take(i as int),
                        ),
                    decreases n - i,
                {
                    let ghost m0 = shell_aliases_model(aliases@);
                    if let Some(alias) = ShellAliasConfig::from_config_value(&array[i]) {
                        let ghost am = (
                            alias.alias@,
                            match &alias.target {
                                Some(t) => Some(t@),
                                None => None::<Seq<char>>,
                            },
                        );
                        aliases.push(alias);
                        proof {
                            assert(shell_aliases_model(aliases@) =~~= m0.push(am));
                        }
                    }
                    proof {
                        lemma_shell_aliases_push(arrs.take(i as int), arrs[i as int]);
                        assert(arrs.take(i as int + 1) =~= arrs.take(i as int).push(
                            arrs[i as int],
                        ));
                        assert(shell_aliases_model(aliases@) =~~= spec_shell_aliases(
                            arrs.take(i as int + 1),
                        ));
                    }
                    i = i + 1;
                }
                proof {
                    assert(arrs.take(n as int) =~= arrs);
                }
            }
        }
        ShellAliasesConfig { aliases }
    }
}

/// Whether the tool updates itself, and whether to ask first.
#[derive(Debug, Clone, PartialEq, Eq, Structural)]
pub enum PathRepoUpdatesSelfUpdateEnum {
    True,
    False,
    NoCheck,
    Ask,
}

impl PathRepoUpdatesSelfUpdateEnum {
    pub fn do_not_check(&self) -> (r: bool)
        ensures
            r == (*self is NoCheck),
    {
        matches!(self, PathRepoUpdatesSelfUpdateEnum::NoCheck)
    }

    /// `interactive` stands in for whether the surrounding shell can prompt.
    pub fn is_false(&self, interactive: bool) -> (r: bool)
        ensures
            r == (*self is False || (*self is Ask && !interactive)),
    {
        match self {
            PathRepoUpdatesSelfUpdateEnum::False => true,
            PathRepoUpdatesSelfUpdateEnum::Ask => !interactive,
            _ => false,
        }
    }

    pub fn is_ask(&self, interactive: bool) -> (r: bool)
        ensures
            r == (*self is Ask && interactive),
    {
        match self {
            PathRepoUpdatesSelfUpdateEnum::Ask => interactive,
            _ => false,
        }
    }
}

/// Per-repository overrides for background updates.
#[derive(Debug, Clone)]
pub struct PathRepoUpdatesPerRepoConfig {
    pub enabled: bool,
    pub ref_type: String,
    pub ref_match: Option<String>,
}

/// What one per-repository override node denotes: the update switch, the
/// reference kind, and the optional reference filter.
pub open spec fn spec_per_repo(cv: ConfigValue) -> (bool, Seq<char>, Option<Seq<char>>) {
    (
        cv.spec_get_as_bool("enabled"@).unwrap_or(true),
        cv.spec_get_as_str("ref_type"@).unwrap_or("branch"@),
        cv.spec_get_as_str("ref_match"@),
    )
}

pub open spec fn per_repo_model(c: PathRepoUpdatesPerRepoConfig) -> (
    bool,
    Seq<char>,
    Option<Seq<char>>,
) {
    (
        c.enabled,
        c.ref_type@,
        match c.ref_match {
            Some(m) => Some(m@),
            None => None,
        },
    )
}

impl PathRepoUpdatesPerRepoConfig {
    pub fn from_config_value(config_value: &ConfigValue) -> (r: Self)
        requires
            config_value.spec_get("enabled"@) matches Some(v) ==> v.spec_as_bool() is Some,
            config_value.spec_get("ref_type"@) matches Some(v) ==> v.spec_as_str() is Some,
            config_value.spec_get("ref_match"@) matches Some(v) ==> v.spec_as_str() is Some,
        ensures
            r.enabled == config_value.spec_get_as_bool("enabled"@).unwrap_or(true),
            r.ref_type@ == config_value.spec_get_as_str("ref_type"@).unwrap_or("branch"@),
            match r.ref_match {
                Some(m) => config_value.spec_get_as_str("ref_match"@) == Some(m@),
                None => config_value.spec_get_as_str("ref_match"@) is None,
            },
            per_repo_model(r) == spec_per_repo(*config_value),
    {
        proof {
            reveal_strlit("branch");
        }
        PathRepoUpdatesPerRepoConfig {
            enabled: match config_value.get("enabled") {
                Some(value) => value.as_bool().unwrap(),
                None => true,
            },
            ref_type: match config_value.get("ref_type") {
                Some(value) => value.as_str().unwrap(),
                None => String::from_str("branch"),
            },
            ref_match: config_value.get_as_str("ref_match"),
        }
    }
}

/// How the tool manager decides on self-update: a boolean node wins, a
/// string node is read case-insensitively, anything else means asking.
pub open spec fn spec_self_update(cv: ConfigValue) -> PathRepoUpdatesSelfUpdateEnum {
    match cv.spec_get_as_bool("self_update"@) {
        Some(true) => PathRepoUpdatesSelfUpdateEnum::True,
        Some(false) => PathRepoUpdatesSelfUpdateEnum::False,
        None => match cv.spec_get_as_str("self_update"@) {
            Some(s) => {
                let l = lower_of(s);
                if l == "true"@ || l == "yes"@ || l == "y"@ {
                    PathRepoUpdatesSelfUpdateEnum::True
                } else if l == "false"@ || l == "no"@ || l == "n"@ {
                    PathRepoUpdatesSelfUpdateEnum::False
                } else if l == "nocheck"@ {
                    PathRepoUpdatesSelfUpdateEnum::NoCheck
                } else {
                    PathRepoUpdatesSelfUpdateEnum::Ask
                }
            },
            None => PathRepoUpdatesSelfUpdateEnum::Ask,
        },
    }
}

/// Background update policy for tracked repositories.
#[derive(Debug, Clone)]
pub struct PathRepoUpdatesConfig {
    pub enabled: bool,
    pub self_update: PathRepoUpdatesSelfUpdateEnum,
    pub pre_auth: bool,
    pub pre_auth_timeout: u64,
    pub background_updates: bool,
    pub background_updates_timeout: u64,
    pub interval: u64,
    pub ref_type: String,
    pub ref_match: Option<String>,
    pub per_repo_config: Vec<(String, PathRepoUpdatesPerRepoConfig)>,
}

impl PathRepoUpdatesConfig {
    pub fn from_config_value(config_value: &ConfigValue) -> (r: Self)
        requires
            config_value.spec_get("per_repo_config"@) matches Some(v) ==> v.spec_as_table()
                is Some,
            config_value.spec_get("per_repo_config"@) matches Some(v) ==> (forall|i: int|
                0 <= i < v.spec_as_table()->Some_0.len()
                    ==> spec_per_repo_ok(#[trigger] v.spec_as_table()->Some_0[i].1)),
            config_value.spec_get("ref_type"@) matches Some(v) ==> v.spec_as_str() is Some,
            config_value.spec_get("ref_match"@) matches Some(v) ==> v.spec_as_str() is Some,
        ensures
            r.enabled == config_value.spec_get_as_bool("enabled"@).unwrap_or(true),
            r.self_update == spec_self_update(*config_value),
            r.pre_auth == config_value.spec_get_as_bool("pre_auth"@).unwrap_or(true),
            r.pre_auth_timeout == config_value.spec_get_as_unsigned("pre_auth_timeout"@).unwrap_or(
                120,
            ),
            r.background_updates == config_value.spec_get_as_bool(
                "background_updates"@,
            ).unwrap_or(true),
            r.background_updates_timeout == config_value.spec_get_as_unsigned(
                "background_updates_timeout"@,
            ).unwrap_or(3600),
            r.interval == config_value.spec_get_as_unsigned("interval"@).unwrap_or(43200),
            r.ref_type@ == config_value.spec_get_as_str("ref_type"@).unwrap_or("branch"@),
            match r.ref_match {
                Some(m) => config_value.spec_get_as_str("ref_match"@) == Some(m@),
                None => config_value.spec_get_as_str("ref_match"@) is None,
            },
            match config_value.spec_get("per_repo_config"@) {
                Some(v) => r.per_repo_config@.len() == v.spec_as_table()->Some_0.len()
                    && forall|i: int|
                    0 <= i < r.per_repo_config@.len()
                        ==> (#[trigger] r.per_repo_config@[i]).0@ == v.spec_as_table()->Some_0[i].0@
                            && per_repo_model(r.per_repo_config@[i].1) == spec_per_repo(
                            v.spec_as_table()->Some_0[i].1,
                        ),
                None => r.per_repo_config@.len() == 0,
            },
    {
        proof {
            reveal_strlit("branch");
        }
        let mut per_repo_config: Vec<(String, PathRepoUpdatesPerRepoConfig)> = Vec::new();
        match config_value.get("per_repo_config") {
            Some(value) => {
                let table = value.as_table().unwrap();
                let ghost t = table@;
                proof {
                    let v = config_value.spec_get("per_repo_config"@)->Some_0;
                    assert(v.spec_as_table()->Some_0 == t);
                    assert(forall|k: int| 0 <= k < t.len() ==> spec_per_repo_ok(#[trigger] t[k].1));
                }
                let n = table.len();
                let mut i: usize = 0;
                while i < n
                    invariant
                        i <= n,
                        n == t.len(),
                        t == table@,
                        forall|k: int| 0 <= k < t.len() ==> spec_per_repo_ok(#[trigger] t[k].1),
                        per_repo_config@.len() == i,
                        forall|k: int|
                            0 <= k < i ==> (#[trigger] per_repo_config@[k]).0@ == t[k].0@
                                && per_repo_model(per_repo_config@[k].1) == spec_per_repo(t[k].1),
                    decreases n - i,
                {
                    let key = table[i].0.clone();
                    let parsed = PathRepoUpdatesPerRepoConfig::from_config_value(&table[i].1);
                    per_repo_config.push((key, parsed));
                    i = i + 1;
                }
            },
            None => {},
        };
        let self_update = Self::read_self_update(config_value);
        PathRepoUpdatesConfig {
            enabled: match config_value.get_as_bool("enabled") {
                Some(b) => b,
                None => true,
            },
            self_update,
            pre_auth: match config_value.get_as_bool("pre_auth") {
                Some(b) => b,
                None => true,
            },
            pre_auth_timeout: match config_value.get_as_unsigned_integer("pre_auth_timeout") {
                Some(v) => v,
                None => 120,
            },
            background_updates: match config_value.get_as_bool("background_updates") {
                Some(b) => b,
                None => true,
            },
            background_updates_timeout: match config_value.get_as_unsigned_integer(
                "background_updates_timeout",
            ) {
                Some(v) => v,
                None => 3600,
            },
            interval: match config_value.get_as_unsigned_integer("interval") {
                Some(v) => v,
                None => 43200,
            },
            ref_type: match config_value.get_as_str("ref_type") {
                Some(s) => s,
                None => String::from_str("branch"),
            },
            ref_match: config_value.get_as_str("ref_match"),
            per_repo_config,
        }
    }

    fn read_self_update(config_value: &ConfigValue) -> (r: PathRepoUpdatesSelfUpdateEnum)
        ensures
            r == spec_self_update(*config_value),
    {
        match config_value.get_as_bool("self_update") {
            Some(true) => PathRepoUpdatesSelfUpdateEnum::True,
            Some(false) => PathRepoUpdatesSelfUpdateEnum::False,
            None => match config_value.get_as_str("self_update") {
                Some(value) => {
                    let l = strutil::to_lowercase(value.as_str());
                    proof {
                        reveal_strlit("true");
                        reveal_strlit("yes");
                        reveal_strlit("y");
                        reveal_strlit("false");
                        reveal_strlit("no");
                        reveal_strlit("n");
                        reveal_strlit("nocheck");
                    }
                    if strutil::str_eq(l.as_str(), "true") || strutil::str_eq(l.as_str(), "yes")
                        || strutil::str_eq(l.as_str(), "y") {
                        PathRepoUpdatesSelfUpdateEnum::True
                    } else if strutil::str_eq(l.as_str(), "false") || strutil::str_eq(
                        l.as_str(),
                        "no",
                    ) || strutil::str_eq(l.as_str(), "n") {
                        PathRepoUpdatesSelfUpdateEnum::False
                    } else if strutil::str_eq(l.as_str(), "nocheck") {
                        PathRepoUpdatesSelfUpdateEnum::NoCheck
                    } else {
                        PathRepoUpdatesSelfUpdateEnum::Ask
                    }
                },
                None => PathRepoUpdatesSelfUpdateEnum::Ask,
            },
        }
    }

    /// The update switches for one repository: its override when present,
    /// the global settings otherwise.
    pub fn update_config(&self, repo_id: &str) -> (r: (bool, String, Option<String>))
        ensures
            match spec_assoc_get_repo(self.per_repo_config@, repo_id@) {
                Some(v) => r.0 == v.enabled && r.1@ == v.ref_type@ && (match r.2 {
                    Some(m) => v.ref_match matches Some(m2) && m2@ == m@,
                    None => v.ref_match is None,
                }),
                None => r.0 == self.enabled && r.1@ == self.ref_type@ && (match r.2 {
                    Some(m) => self.ref_match matches Some(m2) && m2@ == m@,
                    None => self.ref_match is None,
                }),
            },
    {
        let n = self.per_repo_config.len();
        let mut i: usize = 0;
        proof {
            assert(self.per_repo_config@.skip(0) =~= self.per_repo_config@);
        }
        while i < n
            invariant
                i <= n,
                n == self.per_repo_config@.len(),
                spec_assoc_get_repo(self.per_repo_config@, repo_id@) == spec_assoc_get_repo(
                    self.per_repo_config@.skip(i as int),
                    repo_id@,
                ),
            decreases n - i,
        {
            proof {
                let tail = self.per_repo_config@.skip(i as int);
                assert(tail.len() > 0 && tail[0] == self.per_repo_config@[i as int]);
                assert(tail.drop_first() =~= self.per_repo_config@.skip(i as int + 1));
            }
            if strutil::str_eq(self.per_repo_config[i].0.as_str(), repo_id) {
                let v = &self.per_repo_config[i].1;
                let ref_match: Option<String> = match &v.ref_match {
                    Some(m) => Some(m.clone()),
                    None => None,
                };
                return (v.enabled, v.ref_type.clone(), ref_match);
            }
            i = i + 1;
        }
        proof {
            assert(self.per_repo_config@.skip(n as int) =~= Seq::<
                (String, PathRepoUpdatesPerRepoConfig),
            >::empty());
        }
        let ref_match: Option<String> = match &self.ref_match {
            Some(m) => Some(m.clone()),
            None => None,
        };
        (self.enabled, self.ref_type.clone(), ref_match)
    }
}

/// Resolved package handles: what the package manager knows about where
/// each handle's checkout lives. The surrounding program fills this in;
/// the path logic here only reads it.
#[derive(Debug, Clone)]
pub struct PackageLookup {
    pub entries: Vec<(String, String)>,
}

pub open spec fn spec_pkg_get(m: Seq<(String, String)>, handle: Seq<char>) -> Option<Seq<char>>
    decreases m.len(),
{
    if m.len() == 0 {
        None
    } else if m[0].0@ == handle {
        Some(m[0].1@)
    } else {
        spec_pkg_get(m.drop_first(), handle)
    }
}

impl PackageLookup {
    pub fn new() -> (r: Self)
        ensures
            r.entries@.len() == 0,
    {
        PackageLookup { entries: Vec::new() }
    }

    pub fn get(&self, handle: &str) -> (r: Option<String>)
        ensures
            match r {
                Some(p) => spec_pkg_get(self.entries@, handle@) == Some(p@),
                None => spec_pkg_get(self.entries@, handle@) is None,
            },
    {
        let n = self.entries.len();
        let mut i: usize = 0;
        proof {
            assert(self.entries@.skip(0) =~= self.entries@);
        }
        while i < n
            invariant
                i <= n,
                n == self.entries@.len(),
                spec_pkg_get(self.entries@, handle@) == spec_pkg_get(
                    self.entries@.skip(i as int),
                    handle@,
                ),
            decreases n - i,
        {
            proof {
                let tail = self.entries@.skip(i as int);
                assert(tail.len() > 0 && tail[0] == self.entries@[i as int]);
                assert(tail.drop_first() =~= self.entries@.skip(i as int + 1));
            }
            if strutil::str_eq(self.entries[i].0.as_str(), handle) {
                return Some(self.entries[i].1.clone());
            }
            i = i + 1;
        }
        proof {
            assert(self.entries@.skip(n as int) =~= Seq::<(String, String)>::empty());
        }
        None
    }
}

/// `s` without its trailing slashes.
pub open spec fn spec_strip_trailing_slash(s: Seq<char>) -> Seq<char>
    decreases s.len(),
{
    if s.len() > 0 && s.last() == '/' {
        spec_strip_trailing_slash(s.drop_last())
    } else {
        s
    }
}

/// Whether `prefix` names this path or an ancestor of it, on component
/// boundaries: `/a/b` lies under `/a`, but `/ab` does not.
pub open spec fn spec_path_starts_with(p: Seq<char>, prefix: Seq<char>) -> bool {
    let q = spec_strip_trailing_slash(prefix);
    p == q || (p.len() > q.len() && p.take(q.len() as int) == q && p[q.len() as int] == '/')
}

/// The part of `p` below `prefix`, without the joining slash.
pub open spec fn spec_path_rest(p: Seq<char>, prefix: Seq<char>) -> Seq<char> {
    let q = spec_strip_trailing_slash(prefix);
    if p.len() <= q.len() {
        Seq::<char>::empty()
    } else {
        p.skip(q.len() as int + 1)
    }
}

/// Length of `s` once trailing slashes are gone.
fn stripped_len(s: &str) -> (r: usize)
    ensures
        r <= s@.len(),
        r == spec_strip_trailing_slash(s@).len(),
        spec_strip_trailing_slash(s@) == s@.take(r as int),
{
    let n = s.unicode_len();
    let mut r = n;
    proof {
        assert(s@.take(n as int) =~= s@);
    }
    while r > 0
        invariant
            r <= n,
            n == s@.len(),
            spec_strip_trailing_slash(s@) == spec_strip_trailing_slash(s@.take(r as int)),
        decreases r,
    {
        let c = s.get_char(r - 1);
        proof {
            let cur = s@.take(r as int);
            assert(cur.len() == r);
            assert(cur.last() == s@[r as int - 1]);
            assert(cur.drop_last() =~= s@.take(r as int - 1));
        }
        if c == '/' {
            r = r - 1;
        } else {
            proof {
                assert(spec_strip_trailing_slash(s@.take(r as int)) == s@.take(r as int));
            }
            return r;
        }
    }
    proof {
        assert(s@.take(0) =~= Seq::<char>::empty());
        assert(spec_strip_trailing_slash(Seq::<char>::empty()) =~= Seq::<char>::empty());
    }
    0
}

/// Exec mirror of `spec_path_starts_with`.
pub fn path_starts_with(p: &str, prefix: &str) -> (r: bool)
    ensures
        r == spec_path_starts_with(p@, prefix@),
{
    let ghost q = spec_strip_trailing_slash(prefix@);
    let qlen = stripped_len(prefix);
    let plen = p.unicode_len();
    if plen < qlen {
        proof {
            assert(!spec_path_starts_with(p@, prefix@));
        }
        return false;
    }
    let mut i: usize = 0;
    while i < qlen
        invariant
            i <= qlen,
            qlen <= plen,
            qlen <= prefix@.len(),
            plen == p@.len(),
            qlen == q.len(),
            q == spec_strip_trailing_slash(prefix@),
            q == prefix@.take(qlen as int),
            forall|k: int| 0 <= k < i ==> p@[k] == q[k],
        decreases qlen - i,
    {
        proof {
            assert(q[i as int] == prefix@[i as int]);
        }
        if p.get_char(i) != prefix.get_char(i) {
            proof {
                assert(p@[i as int] != q[i as int]);
                assert(p@.take(qlen as int) != q) by {
                    assert(p@.take(qlen as int)[i as int] == p@[i as int]);
                }
                assert(p@ != q) by {
                    if p@ == q {
                        assert(p@[i as int] == q[i as int]);
                    }
                }
            }
            return false;
        }
        i = i + 1;
    }
    if plen == qlen {
        proof {
            assert(p@ =~= q);
        }
        return true;
    }
    let c = p.get_char(qlen);
    proof {
        assert(p@.take(qlen as int) =~= q);
    }
    c == '/'
}

/// What one path entry node denotes: written path, package handle, and
/// resolved absolute path.
pub open spec fn spec_path_entry(cv: ConfigValue, packages: PackageLookup) -> (
    Seq<char>,
    Option<Seq<char>>,
    Seq<char>,
) {
    if cv.spec_is_table() {
        let path = cv.spec_get_as_str("path"@).unwrap_or(Seq::<char>::empty());
        match spec_entry_package(cv, packages) {
            Some(pkg_path) => (
                path,
                Some(cv.spec_get_as_str("package"@).unwrap_or(Seq::<char>::empty())),
                if path.len() == 0 {
                    pkg_path
                } else {
                    pkg_path + seq!['/'] + path
                },
            ),
            None => (path, None, path),
        }
    } else {
        let path = cv.spec_as_str().unwrap_or(Seq::<char>::empty());
        (path, None, path)
    }
}

pub open spec fn path_entry_model(e: PathEntryConfig) -> (Seq<char>, Option<Seq<char>>, Seq<char>) {
    (
        e.path@,
        match e.package {
            Some(h) => Some(h@),
            None => None,
        },
        e.full_path@,
    )
}

/// One entry of the lookup path: as written, and resolved absolute.
#[derive(Debug, Clone, PartialEq)]
pub struct PathEntryConfig {
    pub path: String,
    pub package: Option<String>,
    pub full_path: String,
}

impl PathEntryConfig {
    /// An entry for a plain path: absolute paths resolve to themselves.
    pub fn from_path(path: &str) -> (r: Self)
        ensures
            r.path@ == path@,
            r.package is None,
            r.full_path@ == if path@.len() > 0 && path@[0] == '/' {
                path@
            } else {
                Seq::<char>::empty()
            },
    {
        let absolute = if path.unicode_len() > 0 {
            path.get_char(0) == '/'
        } else {
            false
        };
        PathEntryConfig {
            path: path.to_owned(),
            package: None,
            full_path: if absolute {
                path.to_owned()
            } else {
                String::new()
            },
        }
    }

    /// Reads an entry node: a plain string, or a table with `path` and
    /// possibly `package`, whose resolved checkout anchors relative paths.
    pub fn from_config_value(config_value: &ConfigValue, packages: &PackageLookup) -> (r: Self)
        requires
            spec_path_entry_ok(*config_value, *packages),
        ensures
            config_value.spec_is_table() ==> {
                let path = config_value.spec_get_as_str("path"@).unwrap_or(Seq::<char>::empty());
                match spec_entry_package(*config_value, *packages) {
                    Some(pkg_path) => {
                        &&& r.path@ == path
                        &&& (r.package matches Some(h) && config_value.spec_get_as_str("package"@)
                            == Some(h@))
                        &&& r.full_path@ == (if path.len() == 0 {
                            pkg_path
                        } else {
                            pkg_path + seq!['/'] + path
                        })
                    },
                    None => r.path@ == path && r.package is None && r.full_path@ == path,
                }
            },
            !config_value.spec_is_table() ==> {
                let path = config_value.spec_as_str().unwrap_or(Seq::<char>::empty());
                r.path@ == path && r.package is None && r.full_path@ == path
            },
            path_entry_model(r) == spec_path_entry(*config_value, *packages),
    {
        if config_value.is_table() {
            let path = match config_value.get_as_str("path") {
                Some(s) => s,
                None => String::new(),
            };
            let absolute = if path.unicode_len() > 0 {
                path.get_char(0) == '/'
            } else {
                false
            };
            if !absolute {
                if let Some(package) = config_value.get("package") {
                    let handle = package.as_str().unwrap();
                    if let Some(package_path) = packages.get(handle.as_str()) {
                        let mut full_path = package_path;
                        if path.unicode_len() > 0 {
                            full_path.append("/");
                            full_path.append(path.as_str());
                            proof {
                                reveal_strlit("/");
                            }
                        }
                        return PathEntryConfig {
                            path,
                            package: Some(handle),
                            full_path,
                        };
                    }
                }
            }
            PathEntryConfig { path: path.clone(), package: None, full_path: path }
        } else {
            let path = match config_value.as_str() {
                Some(s) => s,
                None => String::new(),
            };
            PathEntryConfig { path: path.clone(), package: None, full_path: path }
        }
    }

    /// This entry as a configuration node: the package form keeps handle
    /// and relative path, a plain entry collapses to its resolved path.
    pub fn as_config_value(&self) -> (r: ConfigValue)
        ensures
            match self.package {
                Some(_) => r.spec_is_table(),
                None => r.spec_as_str() == Some(self.full_path@),
            },
    {
        if let Some(package) = &self.package {
            let mut map: Vec<(String, ConfigValue)> = Vec::new();
            map.push((String::from_str("path"), ConfigValue::from_str(self.path.as_str())));
            map.push((String::from_str("package"), ConfigValue::from_str(package.as_str())));
            ConfigValue::new(
                ConfigSource::Null,
                Vec::new(),
                Some(Box::new(ConfigData::Mapping(map))),
            )
        } else {
            ConfigValue::from_str(self.full_path.as_str())
        }
    }

    /// Whether this entry lives under the package root.
    pub fn is_package(&self, package_root: &str) -> (r: bool)
        ensures
            r == (self.package is Some || spec_path_starts_with(self.full_path@, package_root@)),
    {
        self.package.is_some() || path_starts_with(self.full_path.as_str(), package_root)
    }

    /// The resolved checkout of this entry's package handle, if any.
    pub fn package_path(&self, packages: &PackageLookup) -> (r: Option<String>)
        ensures
            match self.package {
                Some(h) => match r {
                    Some(p) => spec_pkg_get(packages.entries@, h@) == Some(p@),
                    None => spec_pkg_get(packages.entries@, h@) is None,
                },
                None => r is None,
            },
    {
        if let Some(package) = &self.package {
            return packages.get(package.as_str());
        }
        None
    }

    pub open spec fn spec_is_valid(self) -> bool {
        self.full_path@.len() > 0 && self.full_path@[0] == '/'
    }

    /// Valid entries resolved to an absolute path.
    pub fn is_valid(&self) -> (r: bool)
        ensures
            r == self.spec_is_valid(),
    {
        if self.full_path.unicode_len() == 0 {
            return false;
        }
        self.full_path.as_str().get_char(0) == '/'
    }

    pub fn as_string(&self) -> (r: String)
        ensures
            r@ == self.full_path@,
    {
        self.full_path.clone()
    }

    /// Whether this entry lies at or under `path_entry`'s resolved path.
    pub fn starts_with(&self, path_entry: &PathEntryConfig) -> (r: bool)
        ensures
            r == (self.spec_is_valid() && spec_path_starts_with(
                self.full_path@,
                path_entry.full_path@,
            )),
    {
        if !self.is_valid() {
            return false;
        }
        path_starts_with(self.full_path.as_str(), path_entry.full_path.as_str())
    }

    /// Whether `path` lies at or under this entry's resolved path.
    pub fn includes_path(&self, path: &str) -> (r: bool)
        ensures
            r == (self.spec_is_valid() && spec_path_starts_with(path@, self.full_path@)),
    {
        if !self.is_valid() {
            return false;
        }
        path_starts_with(path, self.full_path.as_str())
    }

    /// Rebase this entry from under `path_from` to under `path_to`. True
    /// exactly when the entry moved; an entry elsewhere, or a target
    /// package that cannot be resolved, leaves it untouched.
    pub fn replace(
        &mut self,
        path_from: &PathEntryConfig,
        path_to: &PathEntryConfig,
        packages: &PackageLookup,
    ) -> (r: bool)
        requires
            path_to.package matches Some(h) ==> (match spec_pkg_get(packages.entries@, h@) {
                Some(pkg) => spec_path_starts_with(
                    path_to.full_path@ + seq!['/'] + spec_path_rest(
                        old(self).full_path@,
                        path_from.full_path@,
                    ),
                    pkg,
                ),
                None => true,
            }),
        ensures
            ({
                let moved = old(self).spec_is_valid() && spec_path_starts_with(
                    old(self).full_path@,
                    path_from.full_path@,
                );
                let new_full = path_to.full_path@ + seq!['/'] + spec_path_rest(
                    old(self).full_path@,
                    path_from.full_path@,
                );
                match path_to.package {
                    Some(h) => match spec_pkg_get(packages.entries@, h@) {
                        Some(pkg) => {
                            &&& r == moved
                            &&& (moved ==> final(self).full_path@ == new_full
                                && (final(self).package matches Some(h2) && h2@ == h@)
                                && final(self).path@ == spec_path_rest(new_full, pkg))
                            &&& (!moved ==> *final(self) == *old(self))
                        },
                        None => r == false && *final(self) == *old(self),
                    },
                    None => {
                        &&& r == moved
                        &&& (moved ==> final(self).full_path@ == new_full && final(self).package
                            is None && final(self).path@ == new_full)
                        &&& (!moved ==> *final(self) == *old(self))
                    },
                }
            }),
    {
        if self.starts_with(path_from) {
            let qlen = stripped_len(path_from.full_path.as_str());
            let flen = self.full_path.unicode_len();
            let rest = if flen <= qlen {
                String::new()
            } else {
                self.full_path.as_str().substring_char(qlen + 1, flen).to_owned()
            };
            proof {
                assert(rest@ == spec_path_rest(self.full_path@, path_from.full_path@));
            }
            let mut new_full_path = path_to.full_path.clone();
            new_full_path.append("/");
            new_full_path.append(rest.as_str());
            proof {
                reveal_strlit("/");
                assert(new_full_path@ == path_to.full_path@ + seq!['/'] + rest@);
            }
            if let Some(package) = &path_to.package {
                if let Some(package_path) = packages.get(package.as_str()) {
                    let plen = stripped_len(package_path.as_str());
                    let nlen = new_full_path.unicode_len();
                    let new_path = if nlen <= plen {
                        String::new()
                    } else {
                        new_full_path.as_str().substring_char(plen + 1, nlen).to_owned()
                    };
                    proof {
                        assert(new_path@ == spec_path_rest(new_full_path@, package_path@));
                    }
                    self.full_path = new_full_path;
                    self.package = Some(package.clone());
                    self.path = new_path;
                    return true;
                }
            } else {
                self.full_path = new_full_path.clone();
                self.package = None;
                self.path = new_full_path;
                return true;
            }
        }
        false
    }
}

/// The package path resolved for a table entry with a relative path and a
/// `package` key, when the lookup knows the handle.
pub open spec fn spec_entry_package(cv: ConfigValue, packages: PackageLookup) -> Option<Seq<char>> {
    let path = cv.spec_get_as_str("path"@).unwrap_or(Seq::<char>::empty());
    if path.len() > 0 && path[0] == '/' {
        None
    } else {
        match cv.spec_get("package"@) {
            Some(p) => match p.spec_as_str() {
                Some(h) => spec_pkg_get(packages.entries@, h),
                None => None,
            },
            None => None,
        }
    }
}

/// Directories whose executables become commands, before and after the
/// defaults.
#[derive(Debug, Clone)]
pub struct PathConfig {
    pub append: Vec<PathEntryConfig>,
    pub prepend: Vec<PathEntryConfig>,
}

impl PathConfig {
    pub fn from_config_value(config_value: &ConfigValue, packages: &PackageLookup) -> (r: Self)
        requires
            config_value.spec_get("append"@) matches Some(v) ==> v.spec_as_array() is Some,
            config_value.spec_get("prepend"@) matches Some(v) ==> v.spec_as_array() is Some,
            config_value.spec_get("append"@) is Some,
            config_value.spec_get("prepend"@) is Some,
            forall|i: int|
                0 <= i < config_value.spec_get("append"@)->Some_0.spec_as_array()->Some_0.len()
                    ==> spec_path_entry_ok(
                    #[trigger] config_value.spec_get(
                        "append"@,
                    )->Some_0.spec_as_array()->Some_0[i],
                    *packages,
                ),
            forall|i: int|
                0 <= i < config_value.spec_get("prepend"@)->Some_0.spec_as_array()->Some_0.len()
                    ==> spec_path_entry_ok(
                    #[trigger] config_value.spec_get(
                        "prepend"@,
                    )->Some_0.spec_as_array()->Some_0[i],
                    *packages,
                ),
        ensures
            r.append@.len() == config_value.spec_get("append"@)->Some_0.spec_as_array()->Some_0.len(),
            r.prepend@.len() == config_value.spec_get(
                "prepend"@,
            )->Some_0.spec_as_array()->Some_0.len(),
            forall|j: int|
                0 <= j < r.append@.len() ==> path_entry_model(#[trigger] r.append@[j])
                    == spec_path_entry(
                    config_value.spec_get("append"@)->Some_0.spec_as_array()->Some_0[j],
                    *packages,
                ),
            forall|j: int|
                0 <= j < r.prepend@.len() ==> path_entry_model(#[trigger] r.prepend@[j])
                    == spec_path_entry(
                    config_value.spec_get("prepend"@)->Some_0.spec_as_array()->Some_0[j],
                    *packages,
                ),
    {
        let append_arr = config_value.get_as_array("append").unwrap();
        let prepend_arr = config_value.get_as_array("prepend").unwrap();
        let mut append: Vec<PathEntryConfig> = Vec::new();
        let ghost aseq = append_arr@;
        proof {
            assert(aseq == config_value.spec_get("append"@)->Some_0.spec_as_array()->Some_0);
            assert(forall|i: int|
                0 <= i < aseq.len() ==> spec_path_entry_ok(#[trigger] aseq[i], *packages));
        }
        let na = append_arr.len();
        let mut i: usize = 0;
        while i < na
            invariant
                i <= na,
                na == aseq.len(),
                aseq == append_arr@,
                forall|k: int| 0 <= k < aseq.len() ==> spec_path_entry_ok(#[trigger] aseq[k], *packages),
                append@.len() == i,
                forall|j: int|
                    0 <= j < i ==> path_entry_model(#[trigger] append@[j]) == spec_path_entry(
                        aseq[j],
                        *packages,
                    ),
            decreases na - i,
        {
            let entry = PathEntryConfig::from_config_value(&append_arr[i], packages);
            proof {
                assert(path_entry_model(entry) == spec_path_entry(aseq[i as int], *packages));
            }
            append.push(entry);
            i = i + 1;
        }
        let mut prepend: Vec<PathEntryConfig> = Vec::new();
        let ghost pseq = prepend_arr@;
        proof {
            assert(pseq == config_value.spec_get("prepend"@)->Some_0.spec_as_array()->Some_0);
            assert(forall|i: int|
                0 <= i < pseq.len() ==> spec_path_entry_ok(#[trigger] pseq[i], *packages));
        }
        let np = prepend_arr.len();
        let mut j: usize = 0;
        while j < np
            invariant
                j <= np,
                np == pseq.len(),
                pseq == prepend_arr@,
                forall|k: int| 0 <= k < pseq.len() ==> spec_path_entry_ok(#[trigger] pseq[k], *packages),
                prepend@.len() == j,
                forall|k: int|
                    0 <= k < j ==> path_entry_model(#[trigger] prepend@[k]) == spec_path_entry(
                        pseq[k],
                        *packages,
                    ),
            decreases np - j,
        {
            let entry = PathEntryConfig::from_config_value(&prepend_arr[j], packages);
            proof {
                assert(path_entry_model(entry) == spec_path_entry(pseq[j as int], *packages));
            }
            prepend.push(entry);
            j = j + 1;
        }
        PathConfig { append, prepend }
    }
}

/// A path entry node parses without failing: when its path is relative and
/// a `package` key is present, that key holds a string.
pub open spec fn spec_path_entry_ok(cv: ConfigValue, packages: PackageLookup) -> bool {
    cv.spec_is_table() ==> {
        let path = cv.spec_get_as_str("path"@).unwrap_or(Seq::<char>::empty());
        !(path.len() > 0 && path[0] == '/') ==> (cv.spec_get("package"@) matches Some(p)
            ==> p.spec_as_str() is Some)
    }
}

/// What shell_words::split returns: the POSIX-style word split of `s`, or
/// nothing for unbalanced quoting; a function of the characters alone.
pub uninterp spec fn shellwords_of(s: Seq<char>) -> Option<Seq<Seq<char>>>;

/// Relies on shell_words::split, which splits a command line into words the
/// way a POSIX shell would and fails on mismatched quotes.
#[verifier::external_body]
fn shell_split(s: &str) -> (r: Option<Vec<String>>)
    ensures
        match r {
            Some(v) => shellwords_of(s@) == Some(v.deep_view()),
            None => shellwords_of(s@) is None,
        },
{
    match shell_words::split(s) {
        Ok(v) => Some(v),
        Err(_) => None,
    }
}

/// Whether a suggested repository is taken as a package or into the
/// worktree.
#[derive(Debug, Clone, PartialEq, Eq, Structural)]
pub enum SuggestCloneTypeEnum {
    Package,
    Worktree,
}

/// The clone type a string names, read case-insensitively.
pub open spec fn spec_clone_type_of(s: Seq<char>) -> Option<SuggestCloneTypeEnum> {
    if lower_of(s) == "package"@ {
        Some(SuggestCloneTypeEnum::Package)
    } else if lower_of(s) == "worktree"@ {
        Some(SuggestCloneTypeEnum::Worktree)
    } else {
        None
    }
}

fn parse_clone_type(s: &str) -> (r: Option<SuggestCloneTypeEnum>)
    ensures
        r == spec_clone_type_of(s@),
{
    let l = strutil::to_lowercase(s);
    proof {
        reveal_strlit("package");
        reveal_strlit("worktree");
    }
    if strutil::str_eq(l.as_str(), "package") {
        Some(SuggestCloneTypeEnum::Package)
    } else if strutil::str_eq(l.as_str(), "worktree") {
        Some(SuggestCloneTypeEnum::Worktree)
    } else {
        None
    }
}

impl core::str::FromStr for SuggestCloneTypeEnum {
    type Err = String;

    fn from_str(s: &str) -> Result<Self, String> {
        match parse_clone_type(s) {
            Some(t) => Ok(t),
            None => Err("Invalid: ".to_owned().concat(s)),
        }
    }
}

/// What one suggestion node denotes, when it parses: handle, extra
/// arguments, and clone type.
pub open spec fn spec_suggest_repo(cv: ConfigValue) -> Option<
    (Seq<char>, Seq<Seq<char>>, SuggestCloneTypeEnum),
> {
    if cv.spec_is_str() {
        Some((cv.spec_as_str()->Some_0, Seq::empty(), SuggestCloneTypeEnum::Package))
    } else if cv.spec_is_table() {
        match cv.spec_get_as_str("handle"@) {
            Some(h) => Some(
                (
                    h,
                    match cv.spec_get_as_str("args"@) {
                        Some(a) => match shellwords_of(a) {
                            Some(ws) => ws,
                            None => Seq::<Seq<char>>::empty(),
                        },
                        None => Seq::<Seq<char>>::empty(),
                    },
                    match cv.spec_get_as_str("clone_type"@) {
                        Some(ct) => spec_clone_type_of(ct).unwrap_or(
                            SuggestCloneTypeEnum::Package,
                        ),
                        None => SuggestCloneTypeEnum::Package,
                    },
                ),
            ),
            None => None,
        }
    } else {
        None
    }
}

/// The suggestions the nodes of `a` denote, keeping those that parse.
pub open spec fn spec_suggest_repos(a: Seq<ConfigValue>) -> Seq<
    (Seq<char>, Seq<Seq<char>>, SuggestCloneTypeEnum),
>
    decreases a.len(),
{
    if a.len() == 0 {
        Seq::empty()
    } else {
        let rest = spec_suggest_repos(a.drop_first());
        match spec_suggest_repo(a[0]) {
            Some(x) => seq![x] + rest,
            None => rest,
        }
    }
}

pub proof fn lemma_suggest_repos_push(a: Seq<ConfigValue>, x: ConfigValue)
    ensures
        spec_suggest_repos(a.push(x)) == spec_suggest_repos(a) + (match spec_suggest_repo(x) {
            Some(y) => seq![y],
            None => Seq::empty(),
        }),
    decreases a.len(),
{
    let g: Seq<(Seq<char>, Seq<Seq<char>>, SuggestCloneTypeEnum)> = match spec_suggest_repo(x) {
        Some(y) => seq![y],
        None => Seq::empty(),
    };
    if a.len() == 0 {
        assert(a.push(x).len() == 1);
        assert(a.push(x)[0] == x);
        assert(a.push(x).drop_first() =~= Seq::<ConfigValue>::empty());
        assert(spec_suggest_repos(a.push(x).drop_first()) == Seq::<
            (Seq<char>, Seq<Seq<char>>, SuggestCloneTypeEnum),
        >::empty());
        assert(spec_suggest_repos(a) == Seq::<
            (Seq<char>, Seq<Seq<char>>, SuggestCloneTypeEnum),
        >::empty());
        assert(spec_suggest_repos(a.push(x)) =~~= spec_suggest_repos(a) + g);
    } else {
        assert(a.push(x)[0] == a[0]);
        assert(a.push(x).drop_first() =~= a.drop_first().push(x));
        lemma_suggest_repos_push(a.drop_first(), x);
        let rest = spec_suggest_repos(a.drop_first());
        match spec_suggest_repo(a[0]) {
            Some(y0) => {
                assert(seq![y0] + (rest + g) =~~= (seq![y0] + rest) + g);
            },
            None => {},
        }
        assert(spec_suggest_repos(a.push(x)) =~~= spec_suggest_repos(a) + g);
    }
}

pub open spec fn suggest_repos_model(s: Seq<SuggestCloneRepositoryConfig>) -> Seq<
    (Seq<char>, Seq<Seq<char>>, SuggestCloneTypeEnum),
> {
    s.map_values(
        |c: SuggestCloneRepositoryConfig| (c.handle@, c.args.deep_view(), c.clone_type),
    )
}

/// One repository offered for cloning when a workdir suggests it.
#[derive(Debug, Clone)]
pub struct SuggestCloneRepositoryConfig {
    pub handle: String,
    pub args: Vec<String>,
    pub clone_type: SuggestCloneTypeEnum,
}

impl SuggestCloneRepositoryConfig {
    /// A plain string is a package suggestion under that handle; a table
    /// gives the handle, extra arguments as one shell-style string, and the
    /// clone type. Anything else, or a table without a handle, is skipped.
    pub fn from_config_value(config_value: &ConfigValue) -> (r: Option<Self>)
        ensures
            match r {
                Some(c) => spec_suggest_repo(*config_value) == Some(
                    (c.handle@, c.args.deep_view(), c.clone_type),
                ),
                None => spec_suggest_repo(*config_value) is None,
            },
    {
        if let Some(value) = config_value.as_str() {
            return Some(
                SuggestCloneRepositoryConfig {
                    handle: value,
                    args: Vec::new(),
                    clone_type: SuggestCloneTypeEnum::Package,
                },
            );
        }
        if !config_value.is_table() {
            return None;
        }
        let handle = match config_value.get_as_str("handle") {
            Some(h) => h,
            None => {
                return None;
            },
        };
        let args: Vec<String> = match config_value.get_as_str("args") {
            Some(a) => match shell_split(a.as_str()) {
                Some(words) => words,
                None => Vec::new(),
            },
            None => Vec::new(),
        };
        proof {
            if config_value.spec_get_as_str("args"@) is None {
                assert(args.deep_view() =~~= Seq::<Seq<char>>::empty());
            }
        }
        let clone_type = match config_value.get_as_str("clone_type") {
            Some(ct) => match parse_clone_type(ct.as_str()) {
                Some(t) => t,
                None => SuggestCloneTypeEnum::Package,
            },
            None => SuggestCloneTypeEnum::Package,
        };
        Some(SuggestCloneRepositoryConfig { handle, args, clone_type })
    }

    pub fn clone_as_package(&self) -> (r: bool)
        ensures
            r == (self.clone_type is Package),
    {
        self.clone_type == SuggestCloneTypeEnum::Package
    }
}

/// The repositories a workdir's configuration suggests cloning.
#[derive(Debug, Clone)]
pub struct SuggestCloneConfig {
    pub repositories: Vec<SuggestCloneRepositoryConfig>,
}

/// The suggestions a configuration node offers: only nodes labeled as
/// coming from the repository itself are read, as a direct array or under
/// a `repositories` key.
pub open spec fn spec_suggest_config(cv: ConfigValue) -> Seq<
    (Seq<char>, Seq<Seq<char>>, SuggestCloneTypeEnum),
> {
    if !cv.spec_has_label("git_repo"@) {
        Seq::empty()
    } else {
        match cv.spec_as_array() {
            Some(arr) => spec_suggest_repos(arr),
            None => if cv.spec_is_table() {
                match cv.spec_get("repositories"@) {
                    Some(av) => match av.spec_as_array() {
                        Some(arr) => spec_suggest_repos(arr),
                        None => Seq::empty(),
                    },
                    None => Seq::empty(),
                }
            } else {
                Seq::empty()
            },
        }
    }
}

impl SuggestCloneConfig {
    /// Reads suggestions only from configuration labeled as coming from the
    /// repository itself; every entry that parses contributes in order.
    pub fn from_config_value(config_value: Option<&ConfigValue>) -> (r: Self)
        ensures
            suggest_repos_model(r.repositories@) == match config_value {
                Some(cv) => spec_suggest_config(*cv),
                None => Seq::<(Seq<char>, Seq<Seq<char>>, SuggestCloneTypeEnum)>::empty(),
            },
    {
        let mut repositories: Vec<SuggestCloneRepositoryConfig> = Vec::new();
        proof {
            assert(suggest_repos_model(repositories@) =~~= Seq::<
                (Seq<char>, Seq<Seq<char>>, SuggestCloneTypeEnum),
            >::empty());
        }
        if let Some(config_value) = config_value {
            if let Some(config_value) = config_value.select_label("git_repo") {
                if let Some(array) = config_value.as_array() {
                    push_suggestions(array, &mut repositories);
                } else if config_value.is_table() {
                    if let Some(array_value) = config_value.get("repositories") {
                        if let Some(array) = array_value.as_array() {
                            push_suggestions(array, &mut repositories);
                        }
                    }
                }
            }
        }
        SuggestCloneConfig { repositories }
    }
}

/// Extends `out` with the suggestions the nodes of `array` denote.
fn push_suggestions(array: &Vec<ConfigValue>, out: &mut Vec<SuggestCloneRepositoryConfig>)
    ensures
        suggest_repos_model(final(out)@) == suggest_repos_model(old(out)@) + spec_suggest_repos(
            array@,
        ),
{
    let ghost base = suggest_repos_model(out@);
    let ghost arrs = array@;
    let n = array.len();
    let mut i: usize = 0;
    proof {
        assert(arrs.take(0) =~= Seq::<ConfigValue>::empty());
        assert(base + spec_suggest_repos(arrs.take(0)) =~~= base);
    }
    #[verifier::loop_isolation(false)]
    while i < n
        invariant
            i <= n,
            suggest_repos_model(out@) =~~= base + spec_suggest_repos(arrs.take(i as int)),
        decreases n - i,
    {
        let ghost m0 = suggest_repos_model(out@);
        if let Some(repository) = SuggestCloneRepositoryConfig::from_config_value(&array[i]) {
            let ghost rm = (repository.handle@, repository.args.deep_view(), repository.clone_type);
            out.push(repository);
            proof {
                assert(suggest_repos_model(out@) =~~= m0.push(rm));
            }
        }
        proof {
            lemma_suggest_repos_push(arrs.take(i as int), arrs[i as int]);
            assert(arrs.take(i as int + 1) =~= arrs.take(i as int).push(arrs[i as int]));
            assert(suggest_repos_model(out@) =~~= base + spec_suggest_repos(
                arrs.take(i as int + 1),
            ));
        }
        i = i + 1;
    }
    proof {
        assert(arrs.take(n as int) =~= arrs);
    }
}

/// One positional or optional parameter of a command's syntax.
#[derive(Debug, Clone)]
pub struct SyntaxOptArg {
    pub name: String,
    pub desc: Option<String>,
    pub required: bool,
}

impl SyntaxOptArg {
    pub fn new(name: String, desc: Option<String>, required: bool) -> (r: Self)
        ensures
            r.name == name,
            r.desc == desc,
            r.required == required,
    {
        SyntaxOptArg { name, desc, required }
    }

    pub open spec fn model(self) -> (Seq<char>, Option<Seq<char>>, bool) {
        (
            self.name@,
            match self.desc {
                Some(d) => Some(d@),
                None => None,
            },
            self.required,
        )
    }

    /// Reads one parameter node; see `spec_opt_arg` for the exact shape.
    pub fn from_config_value(config_value: &ConfigValue, required: Option<bool>) -> (r: Option<
        Self,
    >)
        requires
            spec_opt_arg_ok(*config_value),
        ensures
            match r {
                Some(a) => spec_opt_arg(*config_value, required) == Some(a.model()),
                None => spec_opt_arg(*config_value, required) is None,
            },
    {
        let mut required = required;
        if let Some(table) = config_value.as_table() {
            let name: String;
            let vfd: &ConfigValue;
            match config_value.get("name") {
                Some(nv) => match nv.as_str() {
                    Some(nm) => {
                        name = nm;
                        vfd = config_value;
                    },
                    None => {
                        return None;
                    },
                },
                None => {
                    if table.len() == 1 {
                        name = table[0].0.clone();
                        vfd = &table[0].1;
                    } else {
                        return None;
                    }
                },
            }
            let mut desc: Option<String> = None;
            if let Some(value_str) = vfd.as_str() {
                desc = Some(value_str);
            } else if vfd.is_table() {
                match vfd.get("desc") {
                    Some(dv) => {
                        desc = dv.as_str();
                    },
                    None => {
                        return None;
                    },
                }
                if required.is_none() {
                    match vfd.get("required") {
                        Some(rv) => {
                            required = rv.as_bool();
                        },
                        None => {
                            return None;
                        },
                    }
                }
            }
            let required_flag = match required {
                Some(b) => b,
                None => false,
            };
            Some(SyntaxOptArg { name, desc, required: required_flag })
        } else {
            let name = config_value.as_str().unwrap();
            let required_flag = match required {
                Some(b) => b,
                None => false,
            };
            Some(SyntaxOptArg { name, desc: None, required: required_flag })
        }
    }
}

/// A parameter node that the reader accepts without failing: anything but a
/// table must be a string.
pub open spec fn spec_opt_arg_ok(cv: ConfigValue) -> bool {
    !cv.spec_is_table() ==> cv.spec_is_str()
}

/// The details half of a parameter node: a string is the description; a
/// table must carry `desc`, and `required` too unless already fixed.
pub open spec fn spec_opt_arg_details(
    vfd: ConfigValue,
    nm: Seq<char>,
    req: Option<bool>,
) -> Option<(Seq<char>, Option<Seq<char>>, bool)> {
    if vfd.spec_is_str() {
        Some((nm, Some(vfd.spec_as_str()->Some_0), req.unwrap_or(false)))
    } else if vfd.spec_is_table() {
        let vt = vfd.spec_as_table()->Some_0;
        match spec_assoc_get(vt, "desc"@) {
            None => None,
            Some(dv) => {
                let desc = dv.spec_as_str();
                if req is None {
                    match spec_assoc_get(vt, "required"@) {
                        None => None,
                        Some(rv) => Some((nm, desc, rv.spec_as_bool().unwrap_or(false))),
                    }
                } else {
                    Some((nm, desc, req.unwrap_or(false)))
                }
            },
        }
    } else {
        Some((nm, None, req.unwrap_or(false)))
    }
}

/// One parameter node: named through a `name` key, as the single key of a
/// one-entry table, or as a bare string.
pub open spec fn spec_opt_arg(cv: ConfigValue, req: Option<bool>) -> Option<
    (Seq<char>, Option<Seq<char>>, bool),
> {
    if cv.spec_is_table() {
        let t = cv.spec_as_table()->Some_0;
        match spec_assoc_get(t, "name"@) {
            Some(nv) => match nv.spec_as_str() {
                Some(nm) => spec_opt_arg_details(cv, nm, req),
                None => None,
            },
            None => if t.len() == 1 {
                spec_opt_arg_details(t[0].1, t[0].0@, req)
            } else {
                None
            },
        }
    } else {
        match cv.spec_as_str() {
            Some(nm) => Some((nm, None, req.unwrap_or(false))),
            None => None,
        }
    }
}

/// The parameters contributed by the nodes of `a`, keeping those that parse.
pub open spec fn spec_filter_args(a: Seq<ConfigValue>, req: Option<bool>) -> Seq<
    (Seq<char>, Option<Seq<char>>, bool),
>
    decreases a.len(),
{
    if a.len() == 0 {
        Seq::empty()
    } else {
        let rest = spec_filter_args(a.drop_first(), req);
        match spec_opt_arg(a[0], req) {
            Some(x) => seq![x] + rest,
            None => rest,
        }
    }
}

pub proof fn lemma_filter_args_push(a: Seq<ConfigValue>, x: ConfigValue, req: Option<bool>)
    ensures
        spec_filter_args(a.push(x), req) == spec_filter_args(a, req) + (match spec_opt_arg(
            x,
            req,
        ) {
            Some(y) => seq![y],
            None => Seq::empty(),
        }),
    decreases a.len(),
{
    if a.len() == 0 {
        assert(a.push(x).len() == 1);
        assert(a.push(x)[0] == x);
        assert(a.push(x).drop_first() =~= Seq::<ConfigValue>::empty());
        assert(spec_filter_args(a.push(x).drop_first(), req) == Seq::<
            (Seq<char>, Option<Seq<char>>, bool),
        >::empty());
        assert(spec_filter_args(a, req) == Seq::<(Seq<char>, Option<Seq<char>>, bool)>::empty());
        match spec_opt_arg(x, req) {
            Some(y) => {
                assert(spec_filter_args(a.push(x), req) == seq![y] + spec_filter_args(
                    a.push(x).drop_first(),
                    req,
                ));
                assert(spec_filter_args(a.push(x), req) =~~= spec_filter_args(a, req) + seq![y]);
            },
            None => {
                assert(spec_filter_args(a.push(x), req) =~~= spec_filter_args(a, req) + Seq::<
                    (Seq<char>, Option<Seq<char>>, bool),
                >::empty());
            },
        }
    } else {
        assert(a.push(x)[0] == a[0]);
        assert(a.push(x).drop_first() =~= a.drop_first().push(x));
        lemma_filter_args_push(a.drop_first(), x, req);
        let g: Seq<(Seq<char>, Option<Seq<char>>, bool)> = match spec_opt_arg(x, req) {
            Some(y) => seq![y],
            None => Seq::empty(),
        };
        let rest = spec_filter_args(a.drop_first(), req);
        match spec_opt_arg(a[0], req) {
            Some(y0) => {
                assert(seq![y0] + (rest + g) =~~= (seq![y0] + rest) + g);
            },
            None => {},
        }
        assert(spec_filter_args(a.push(x), req) =~~= spec_filter_args(a, req) + g);
    }
}

/// Every node of `a` is one the parameter reader accepts.
pub open spec fn spec_args_ok(a: Seq<ConfigValue>) -> bool {
    forall|i: int| 0 <= i < a.len() ==> spec_opt_arg_ok(#[trigger] a[i])
}

pub open spec fn args_model(s: Seq<SyntaxOptArg>) -> Seq<(Seq<char>, Option<Seq<char>>, bool)> {
    s.map_values(|a: SyntaxOptArg| a.model())
}

/// Extends `params` with the parameters of the nodes of `array`.
fn push_filtered_args(
    array: &Vec<ConfigValue>,
    req: Option<bool>,
    params: &mut Vec<SyntaxOptArg>,
)
    requires
        spec_args_ok(array@),
    ensures
        args_model(final(params)@) == args_model(old(params)@) + spec_filter_args(array@, req),
{
    let ghost base = args_model(params@);
    let n = array.len();
    let mut i: usize = 0;
    proof {
        assert(array@.take(0) =~= Seq::<ConfigValue>::empty());
        assert(base + spec_filter_args(array@.take(0), req) =~~= base);
    }
    while i < n
        invariant
            i <= n,
            n == array@.len(),
            spec_args_ok(array@),
            args_model(params@) =~~= base + spec_filter_args(array@.take(i as int), req),
        decreases n - i,
    {
        let ghost m0 = args_model(params@);
        match SyntaxOptArg::from_config_value(&array[i], req) {
            Some(a) => {
                let ghost am = a.model();
                params.push(a);
                proof {
                    assert(args_model(params@) =~~= m0.push(am));
                }
            },
            None => {},
        }
        proof {
            lemma_filter_args_push(array@.take(i as int), array@[i as int], req);
            assert(array@.take(i as int + 1) =~= array@.take(i as int).push(array@[i as int]));
            assert(args_model(params@) =~~= base + spec_filter_args(
                array@.take(i as int + 1),
                req,
            ));
        }
        i = i + 1;
    }
    proof {
        assert(array@.take(n as int) =~= array@);
    }
}

/// The parameters one syntax-table key contributes: a missing key nothing,
/// an array its parsed elements, any other node its own parse.
pub open spec fn spec_key_params(cv: ConfigValue, key: Seq<char>, req: Option<bool>) -> Seq<
    (Seq<char>, Option<Seq<char>>, bool),
> {
    match cv.spec_get(key) {
        None => Seq::empty(),
        Some(v) => match v.spec_as_array() {
            Some(arr) => spec_filter_args(arr, req),
            None => match spec_opt_arg(v, req) {
                Some(x) => seq![x],
                None => Seq::empty(),
            },
        },
    }
}

/// That key's node is accepted by the parameter reader.
pub open spec fn spec_key_ok(cv: ConfigValue, key: Seq<char>) -> bool {
    match cv.spec_get(key) {
        None => true,
        Some(v) => match v.spec_as_array() {
            Some(arr) => spec_args_ok(arr),
            None => spec_opt_arg_ok(v),
        },
    }
}

fn push_key_params(
    cv: &ConfigValue,
    key: &str,
    req: Option<bool>,
    params: &mut Vec<SyntaxOptArg>,
)
    requires
        spec_key_ok(*cv, key@),
    ensures
        args_model(final(params)@) == args_model(old(params)@) + spec_key_params(*cv, key@, req),
{
    let ghost base = args_model(params@);
    match cv.get(key) {
        None => {
            proof {
                assert(args_model(params@) =~~= base + spec_key_params(*cv, key@, req));
            }
        },
        Some(v) => {
            if let Some(array) = v.as_array() {
                push_filtered_args(array, req, params);
                proof {
                    assert(args_model(params@) =~~= base + spec_key_params(*cv, key@, req));
                }
            } else {
                match SyntaxOptArg::from_config_value(v, req) {
                    Some(a) => {
                        let ghost am = a.model();
                        let ghost m0 = args_model(params@);
                        params.push(a);
                        proof {
                            assert(args_model(params@) =~~= m0.push(am));
                            assert(args_model(params@) =~~= base + spec_key_params(
                                *cv,
                                key@,
                                req,
                            ));
                        }
                    },
                    None => {
                        proof {
                            assert(args_model(params@) =~~= base + spec_key_params(
                                *cv,
                                key@,
                                req,
                            ));
                        }
                    },
                }
            }
        },
    }
}

/// A command's documented usage line and parameters.
#[derive(Debug, Clone)]
pub struct CommandSyntax {
    pub usage: Option<String>,
    pub parameters: Vec<SyntaxOptArg>,
}

/// The parameter list a syntax node yields, over its recognized keys in
/// their fixed order.
pub open spec fn spec_syntax_params(cv: ConfigValue) -> Seq<(Seq<char>, Option<Seq<char>>, bool)> {
    if cv.spec_is_array() {
        spec_filter_args(cv.spec_as_array()->Some_0, None)
    } else if cv.spec_is_table() {
        spec_key_params(cv, "parameters"@, None) + spec_key_params(cv, "arguments"@, Some(true))
            + spec_key_params(cv, "argument"@, Some(true)) + spec_key_params(
            cv,
            "options"@,
            Some(false),
        ) + spec_key_params(cv, "option"@, Some(false)) + spec_key_params(
            cv,
            "optional"@,
            Some(false),
        )
    } else {
        Seq::empty()
    }
}

/// The usage line a syntax node yields.
pub open spec fn spec_syntax_usage(cv: ConfigValue) -> Option<Seq<char>> {
    if cv.spec_is_array() {
        None
    } else if cv.spec_is_table() {
        match cv.spec_get("usage"@) {
            Some(u) => u.spec_as_str(),
            None => None,
        }
    } else {
        cv.spec_as_str()
    }
}

/// The whole syntax node parses without failing.
pub open spec fn spec_syntax_ok(cv: ConfigValue) -> bool {
    if cv.spec_is_array() {
        spec_args_ok(cv.spec_as_array()->Some_0)
    } else if cv.spec_is_table() {
        &&& spec_key_ok(cv, "parameters"@)
        &&& spec_key_ok(cv, "arguments"@)
        &&& spec_key_ok(cv, "argument"@)
        &&& spec_key_ok(cv, "options"@)
        &&& spec_key_ok(cv, "option"@)
        &&& spec_key_ok(cv, "optional"@)
    } else {
        true
    }
}

impl CommandSyntax {
    pub fn new() -> (r: Self)
        ensures
            r.usage is None,
            r.parameters@.len() == 0,
    {
        CommandSyntax { usage: None, parameters: Vec::new() }
    }

    /// Reads a syntax node; yields nothing when it holds neither a usage
    /// line nor any parameter.
    pub fn from_config_value(config_value: &ConfigValue) -> (r: Option<Self>)
        requires
            spec_syntax_ok(*config_value),
        ensures
            match r {
                Some(cs) => {
                    &&& args_model(cs.parameters@) == spec_syntax_params(*config_value)
                    &&& (match cs.usage {
                        Some(u) => spec_syntax_usage(*config_value) == Some(u@),
                        None => spec_syntax_usage(*config_value) is None,
                    })
                    &&& (cs.parameters@.len() > 0 || cs.usage is Some)
                },
                None => spec_syntax_params(*config_value).len() == 0 && spec_syntax_usage(
                    *config_value,
                ) is None,
            },
    {
        let mut usage: Option<String> = None;
        let mut parameters: Vec<SyntaxOptArg> = Vec::new();
        proof {
            assert(args_model(parameters@) =~~= Seq::<(Seq<char>, Option<Seq<char>>, bool)>::empty());
        }
        if let Some(array) = config_value.as_array() {
            push_filtered_args(array, None, &mut parameters);
            proof {
                assert(args_model(parameters@) =~~= spec_syntax_params(*config_value));
            }
        } else if config_value.is_table() {
            push_key_params(config_value, "parameters", None, &mut parameters);
            push_key_params(config_value, "arguments", Some(true), &mut parameters);
            push_key_params(config_value, "argument", Some(true), &mut parameters);
            push_key_params(config_value, "options", Some(false), &mut parameters);
            push_key_params(config_value, "option", Some(false), &mut parameters);
            push_key_params(config_value, "optional", Some(false), &mut parameters);
            proof {
                assert(args_model(parameters@) =~~= spec_syntax_params(*config_value));
            }
            if let Some(value) = config_value.get("usage") {
                usage = value.as_str();
            }
        } else if let Some(value) = config_value.as_str() {
            usage = Some(value);
        }
        if parameters.is_empty() && usage.is_none() {
            proof {
                assert(args_model(parameters@).len() == parameters@.len());
            }
            return None;
        }
        proof {
            assert(args_model(parameters@).len() == parameters@.len());
        }
        Some(CommandSyntax { usage, parameters })
    }
}

/// A command defined in configuration: its run script, its documentation,
/// and its nested subcommands.
#[derive(Debug)]
pub struct CommandDefinition {
    pub desc: Option<String>,
    pub run: String,
    pub aliases: Vec<String>,
    pub syntax: Option<CommandSyntax>,
    pub category: Option<Vec<String>>,
    pub subcommands: Option<Vec<(String, CommandDefinition)>>,
    pub source: ConfigSource,
}

/// The scalar keys of a command node parse cleanly.
pub open spec fn spec_cmd_scalars_ok(cv: ConfigValue) -> bool {
    &&& (cv.spec_get("desc"@) matches Some(d) ==> d.spec_as_str() is Some)
    &&& (cv.spec_get("category"@) matches Some(c) ==> (match c.spec_as_array() {
        Some(arr) => forall|i: int|
            0 <= i < arr.len() ==> (#[trigger] arr[i]).spec_as_str() is Some,
        None => c.spec_as_str() is Some,
    }))
    &&& (cv.spec_get("aliases"@) matches Some(a) ==> (match a.spec_as_array() {
        Some(arr) => forall|i: int|
            0 <= i < arr.len() ==> (#[trigger] arr[i]).spec_as_str() is Some,
        None => true,
    }))
    &&& (cv.spec_get("syntax"@) matches Some(sv) ==> spec_syntax_ok(sv))
    &&& (cv.spec_get("subcommands"@) matches Some(st) ==> st.spec_is_table())
}

/// A command node parses cleanly, subcommands included, to any depth.
pub open spec fn spec_cmd_def_ok(cv: ConfigValue) -> bool
    decreases cv, 2int,
{
    &&& spec_cmd_scalars_ok(cv)
    &&& (match cv.data {
        Some(d) => match *d {
            ConfigData::Mapping(m) => spec_subs_search_ok(m@),
            _ => true,
        },
        None => true,
    })
}

/// The first `subcommands` entry of a mapping, if any, holds a mapping of
/// cleanly parsing command nodes.
pub open spec fn spec_subs_search_ok(m: Seq<(String, ConfigValue)>) -> bool
    decreases m, 1int,
{
    if m.len() == 0 {
        true
    } else if m[0].0@ == "subcommands"@ {
        match m[0].1.data {
            Some(d) => match *d {
                ConfigData::Mapping(inner) => spec_cmds_ok(inner@),
                _ => true,
            },
            None => true,
        }
    } else {
        spec_subs_search_ok(m.drop_first())
    }
}

pub open spec fn spec_cmds_ok(m: Seq<(String, ConfigValue)>) -> bool
    decreases m, 3int,
{
    if m.len() == 0 {
        true
    } else {
        spec_cmd_def_ok(m[0].1) && spec_cmds_ok(m.drop_first())
    }
}

pub proof fn lemma_cmds_ok_index(m: Seq<(String, ConfigValue)>, i: int)
    requires
        spec_cmds_ok(m),
        0 <= i < m.len(),
    ensures
        spec_cmd_def_ok(m[i].1),
    decreases m.len(),
{
    if i > 0 {
        lemma_cmds_ok_index(m.drop_first(), i - 1);
        assert(m.drop_first()[i - 1] == m[i]);
    }
}

/// The categories a command node lists: an array of strings, or one
/// string as a one-element list.
pub open spec fn spec_cmd_category(cv: ConfigValue) -> Option<Seq<Seq<char>>> {
    match cv.spec_get("category"@) {
        Some(c) => match c.spec_as_array() {
            Some(arr) => Some(
                arr.map_values(|v: ConfigValue| v.spec_as_str().unwrap_or(Seq::<char>::empty())),
            ),
            None => Some(seq![c.spec_as_str().unwrap_or(Seq::<char>::empty())]),
        },
        None => None,
    }
}

/// The aliases a command node lists.
pub open spec fn spec_cmd_aliases(cv: ConfigValue) -> Seq<Seq<char>> {
    match cv.spec_get("aliases"@) {
        Some(a) => match a.spec_as_array() {
            Some(arr) => arr.map_values(
                |v: ConfigValue| v.spec_as_str().unwrap_or(Seq::<char>::empty()),
            ),
            None => Seq::empty(),
        },
        None => Seq::empty(),
    }
}

/// The whole meaning of a parsed command, subcommands included: what a
/// `CommandDefinition` denotes, and what the reader promises to produce.
pub ghost struct CommandDefView {
    pub desc: Option<Seq<char>>,
    pub run: Seq<char>,
    pub aliases: Seq<Seq<char>>,
    pub syntax: Option<(Option<Seq<char>>, Seq<(Seq<char>, Option<Seq<char>>, bool)>)>,
    pub category: Option<Seq<Seq<char>>>,
    pub subcommands: Option<Seq<(Seq<char>, CommandDefView)>>,
    pub source: ConfigSource,
}

/// The model of a parsed command, one level of structure at a time.
pub open spec fn cmd_model(c: CommandDefinition) -> CommandDefView
    decreases c, 1int,
{
    CommandDefView {
        desc: match c.desc {
            Some(d) => Some(d@),
            None => None,
        },
        run: c.run@,
        aliases: c.aliases.deep_view(),
        syntax: match c.syntax {
            Some(cs) => Some(
                (
                    match cs.usage {
                        Some(u) => Some(u@),
                        None => None,
                    },
                    args_model(cs.parameters@),
                ),
            ),
            None => None,
        },
        category: match c.category {
            Some(v) => Some(v.deep_view()),
            None => None,
        },
        subcommands: match c.subcommands {
            Some(subs) => Some(subs_model(subs@)),
            None => None,
        },
        source: c.source,
    }
}

pub open spec fn subs_model(s: Seq<(String, CommandDefinition)>) -> Seq<
    (Seq<char>, CommandDefView),
>
    decreases s, 0int,
{
    if s.len() == 0 {
        Seq::empty()
    } else {
        seq![(s[0].0@, cmd_model(s[0].1))] + subs_model(s.drop_first())
    }
}

/// The syntax a command node carries, or nothing when the node yields
/// neither a usage line nor parameters.
pub open spec fn spec_cmd_syntax(cv: ConfigValue) -> Option<
    (Option<Seq<char>>, Seq<(Seq<char>, Option<Seq<char>>, bool)>),
> {
    match cv.spec_get("syntax"@) {
        Some(sv) => if spec_syntax_params(sv).len() == 0 && spec_syntax_usage(sv) is None {
            None
        } else {
            Some((spec_syntax_usage(sv), spec_syntax_params(sv)))
        },
        None => None,
    }
}

/// What a command node denotes, to any depth of subcommands.
pub open spec fn spec_cmd_def(cv: ConfigValue) -> CommandDefView
    decreases cv, 2int,
{
    CommandDefView {
        desc: cv.spec_get_as_str("desc"@),
        run: cv.spec_get_as_str("run"@).unwrap_or("true"@),
        aliases: spec_cmd_aliases(cv),
        syntax: spec_cmd_syntax(cv),
        category: spec_cmd_category(cv),
        subcommands: match cv.data {
            Some(d) => match *d {
                ConfigData::Mapping(m) => spec_subs_find(m@),
                _ => None,
            },
            None => None,
        },
        source: cv.source,
    }
}

/// The denotation of the first `subcommands` entry of a mapping, if any.
pub open spec fn spec_subs_find(m: Seq<(String, ConfigValue)>) -> Option<
    Seq<(Seq<char>, CommandDefView)>,
>
    decreases m, 1int,
{
    if m.len() == 0 {
        None
    } else if m[0].0@ == "subcommands"@ {
        match m[0].1.data {
            Some(d) => match *d {
                ConfigData::Mapping(inner) => Some(spec_cmds(inner@)),
                _ => None,
            },
            None => None,
        }
    } else {
        spec_subs_find(m.drop_first())
    }
}

pub open spec fn spec_cmds(m: Seq<(String, ConfigValue)>) -> Seq<(Seq<char>, CommandDefView)>
    decreases m, 3int,
{
    if m.len() == 0 {
        Seq::empty()
    } else {
        seq![(m[0].0@, spec_cmd_def(m[0].1))] + spec_cmds(m.drop_first())
    }
}

pub proof fn lemma_subs_model_push(s: Seq<(String, CommandDefinition)>, x: (String, CommandDefinition))
    ensures
        subs_model(s.push(x)) == subs_model(s).push((x.0@, cmd_model(x.1))),
    decreases s.len(),
{
    if s.len() == 0 {
        assert(s.push(x).len() == 1);
        assert(s.push(x)[0] == x);
        assert(s.push(x).drop_first() =~= Seq::<(String, CommandDefinition)>::empty());
        assert(subs_model(s.push(x).drop_first()) == Seq::<(Seq<char>, CommandDefView)>::empty());
        assert(subs_model(s) == Seq::<(Seq<char>, CommandDefView)>::empty());
        assert(subs_model(s.push(x)) =~~= subs_model(s).push((x.0@, cmd_model(x.1))));
    } else {
        assert(s.push(x)[0] == s[0]);
        assert(s.push(x).drop_first() =~= s.drop_first().push(x));
        lemma_subs_model_push(s.drop_first(), x);
        assert(subs_model(s.push(x)) =~~= subs_model(s).push((x.0@, cmd_model(x.1))));
    }
}

pub proof fn lemma_spec_cmds_push(m: Seq<(String, ConfigValue)>, x: (String, ConfigValue))
    ensures
        spec_cmds(m.push(x)) == spec_cmds(m).push((x.0@, spec_cmd_def(x.1))),
    decreases m.len(),
{
    if m.len() == 0 {
        assert(m.push(x).len() == 1);
        assert(m.push(x)[0] == x);
        assert(m.push(x).drop_first() =~= Seq::<(String, ConfigValue)>::empty());
        assert(spec_cmds(m.push(x).drop_first()) == Seq::<(Seq<char>, CommandDefView)>::empty());
        assert(spec_cmds(m) == Seq::<(Seq<char>, CommandDefView)>::empty());
        assert(spec_cmds(m.push(x)) =~~= spec_cmds(m).push((x.0@, spec_cmd_def(x.1))));
    } else {
        assert(m.push(x)[0] == m[0]);
        assert(m.push(x).drop_first() =~= m.drop_first().push(x));
        lemma_spec_cmds_push(m.drop_first(), x);
        assert(spec_cmds(m.push(x)) =~~= spec_cmds(m).push((x.0@, spec_cmd_def(x.1))));
    }
}

/// The find walk reaches the first `subcommands` entry, key by key.
pub proof fn lemma_subs_find_found(m: Seq<(String, ConfigValue)>, i: int)
    requires
        0 <= i < m.len(),
        m[i].0@ == "subcommands"@,
        forall|k: int| 0 <= k < i ==> m[k].0@ != "subcommands"@,
    ensures
        spec_subs_find(m) == (match m[i].1.data {
            Some(d) => match *d {
                ConfigData::Mapping(inner) => Some(spec_cmds(inner@)),
                _ => None,
            },
            None => None,
        }),
    decreases i,
{
    if i > 0 {
        lemma_subs_find_found(m.drop_first(), i - 1);
        assert(m.drop_first()[i - 1] == m[i]);
    }
}

pub proof fn lemma_subs_find_absent(m: Seq<(String, ConfigValue)>)
    requires
        forall|k: int| 0 <= k < m.len() ==> m[k].0@ != "subcommands"@,
    ensures
        spec_subs_find(m) is None,
    decreases m.len(),
{
    if m.len() > 0 {
        assert(forall|k: int|
            0 <= k < m.drop_first().len() ==> m.drop_first()[k] == m[k + 1]);
        lemma_subs_find_absent(m.drop_first());
    }
}

impl CommandDefinition {
    /// Reads a command node. The contract pins the whole denotation —
    /// every scalar field, the alias list, the syntax model, and the
    /// subcommands to any depth, read by the same reader one level down.
    pub fn from_config_value(config_value: &ConfigValue) -> (r: Self)
        requires
            spec_cmd_def_ok(*config_value),
        ensures
            (match r.desc {
                Some(d) => config_value.spec_get_as_str("desc"@) == Some(d@),
                None => config_value.spec_get_as_str("desc"@) is None,
            }),
            r.run@ == config_value.spec_get_as_str("run"@).unwrap_or("true"@),
            r.aliases.deep_view() == spec_cmd_aliases(*config_value),
            (match r.syntax {
                Some(cs) => (config_value.spec_get("syntax"@) matches Some(sv)
                    && args_model(cs.parameters@) == spec_syntax_params(sv) && (match cs.usage {
                    Some(u) => spec_syntax_usage(sv) == Some(u@),
                    None => spec_syntax_usage(sv) is None,
                })),
                None => (match config_value.spec_get("syntax"@) {
                    Some(sv) => spec_syntax_params(sv).len() == 0 && spec_syntax_usage(sv)
                        is None,
                    None => true,
                }),
            }),
            (match r.category {
                Some(c) => spec_cmd_category(*config_value) == Some(c.deep_view()),
                None => spec_cmd_category(*config_value) is None,
            }),
            (match r.subcommands {
                Some(subs) => (config_value.spec_get("subcommands"@) matches Some(st)
                    && st.spec_as_table() matches Some(t) && subs@.len() == t.len() && (forall|
                    j: int,
                |
                    0 <= j < t.len() ==> (#[trigger] subs@[j]).0@ == t[j].0@)),
                None => config_value.spec_get("subcommands"@) is None,
            }),
            r.source == config_value.source,
            cmd_model(r) == spec_cmd_def(*config_value),
        decreases *config_value,
    {
        let syntax = match config_value.get("syntax") {
            Some(value) => CommandSyntax::from_config_value(value),
            None => None,
        };
        let category: Option<Vec<String>> = match config_value.get("category") {
            Some(value) => {
                let mut category: Vec<String> = Vec::new();
                match value.as_array() {
                    Some(arr) => {
                        let ghost arrs = arr@;
                        let n = arr.len();
                        let mut i: usize = 0;
                        proof {
                            assert(arrs.take(0) =~= Seq::<ConfigValue>::empty());
                        }
                        #[verifier::loop_isolation(false)]
                        while i < n
                            invariant
                                i <= n,
                                category.deep_view() =~~= arrs.take(i as int).map_values(
                                    |v: ConfigValue| v.spec_as_str().unwrap_or(
                                        Seq::<char>::empty(),
                                    ),
                                ),
                            decreases n - i,
                        {
                            let ghost c0 = category.deep_view();
                            category.push(arr[i].as_str().unwrap());
                            proof {
                                assert(category.deep_view() =~~= c0.push(
                                    arrs[i as int].spec_as_str().unwrap_or(Seq::<char>::empty()),
                                ));
                                assert(arrs.take(i as int + 1).map_values(
                                    |v: ConfigValue| v.spec_as_str().unwrap_or(
                                        Seq::<char>::empty(),
                                    ),
                                ) =~~= c0.push(
                                    arrs[i as int].spec_as_str().unwrap_or(Seq::<char>::empty()),
                                )) by {
                                    assert(forall|k: int|
                                        0 <= k <= i ==> arrs.take(i as int + 1)[k] == arrs[k]);
                                    assert(forall|k: int|
                                        0 <= k < i ==> arrs.take(i as int)[k] == arrs[k]);
                                }
                            }
                            i = i + 1;
                        }
                        proof {
                            assert(arrs.take(n as int) =~= arrs);
                            assert(category.deep_view() =~~= spec_cmd_category(
                                *config_value,
                            )->Some_0);
                        }
                    },
                    None => {
                        category.push(value.as_str().unwrap());
                        proof {
                            assert(category.deep_view() =~~= spec_cmd_category(
                                *config_value,
                            )->Some_0);
                        }
                    },
                }
                Some(category)
            },
            None => None,
        };
        let subcommands: Option<Vec<(String, CommandDefinition)>> = match &config_value.data {
            Some(d) => match &**d {
                ConfigData::Mapping(m) => {
                    let ghost ms = m@;
                    let found = find_key_index(m, "subcommands");
                    match found {
                        Some(idx) => {
                            proof {
                                assert(spec_assoc_get(ms, "subcommands"@) == Some(ms[idx as int].1))
                                    by {
                                    lemma_assoc_get_first(ms, "subcommands"@, idx as int);
                                }
                            }
                            let sub_cv = &m[idx].1;
                            match &sub_cv.data {
                                Some(d2) => match &**d2 {
                                    ConfigData::Mapping(inner) => {
                                        let ghost t = inner@;
                                        proof {
                                            lemma_subs_search_found(ms, idx as int);
                                        }
                                        let mut subs: Vec<(String, CommandDefinition)> =
                                            Vec::new();
                                        let ni = inner.len();
                                        let mut j: usize = 0;
                                        proof {
                                            assert(t.take(0) =~= Seq::<
                                                (String, ConfigValue),
                                            >::empty());
                                            assert(subs_model(subs@) =~~= spec_cmds(t.take(0)));
                                        }
                                        #[verifier::loop_isolation(false)]
                                        while j < ni
                                            invariant
                                                j <= ni,
                                                subs@.len() == j,
                                                forall|k: int|
                                                    0 <= k < j ==> (#[trigger] subs@[k]).0@
                                                        == t[k].0@,
                                                subs_model(subs@) =~~= spec_cmds(
                                                    t.take(j as int),
                                                ),
                                            decreases ni - j,
                                        {
                                            proof {
                                                lemma_cmds_ok_index(t, j as int);
                                            }
                                            let key = inner[j].0.clone();
                                            let sub = CommandDefinition::from_config_value(
                                                &inner[j].1,
                                            );
                                            let ghost s0 = subs@;
                                            subs.push((key, sub));
                                            proof {
                                                lemma_subs_model_push(s0, (key, sub));
                                                assert(subs@ =~= s0.push((key, sub)));
                                                assert(cmd_model(sub) == spec_cmd_def(
                                                    t[j as int].1,
                                                ));
                                                assert((key@, cmd_model(sub)) == (
                                                    t[j as int].0@,
                                                    spec_cmd_def(t[j as int].1),
                                                ));
                                                lemma_spec_cmds_push(
                                                    t.take(j as int),
                                                    t[j as int],
                                                );
                                                assert(t.take(j as int + 1) =~= t.take(
                                                    j as int,
                                                ).push(t[j as int]));
                                                assert(subs_model(subs@) =~~= spec_cmds(
                                                    t.take(j as int + 1),
                                                ));
                                            }
                                            j = j + 1;
                                        }
                                        proof {
                                            assert(t.take(ni as int) =~= t);
                                            assert(subs_model(subs@) =~~= spec_cmds(t));
                                            lemma_subs_find_found(ms, idx as int);
                                            assert(spec_cmd_def(
                                                *config_value,
                                            ).subcommands == Some(subs_model(subs@)));
                                        }
                                        Some(subs)
                                    },
                                    _ => {
                                        proof {
                                            assert(false);
                                        }
                                        None
                                    },
                                },
                                None => {
                                    proof {
                                        assert(false);
                                    }
                                    None
                                },
                            }
                        },
                        None => {
                            proof {
                                lemma_assoc_get_absent(ms, "subcommands"@);
                                lemma_subs_find_absent(ms);
                                assert(spec_cmd_def(*config_value).subcommands is None);
                            }
                            None
                        },
                    }
                },
                _ => {
                    proof {
                        assert(spec_cmd_def(*config_value).subcommands is None);
                    }
                    None
                },
            },
            None => {
                proof {
                    assert(spec_cmd_def(*config_value).subcommands is None);
                }
                None
            },
        };
        let aliases: Vec<String> = match config_value.get("aliases") {
            Some(value) => match value.as_array() {
                Some(arr) => {
                    let ghost arrs = arr@;
                    let mut aliases: Vec<String> = Vec::new();
                    let n = arr.len();
                    let mut i: usize = 0;
                    #[verifier::loop_isolation(false)]
                    while i < n
                        invariant
                            i <= n,
                            aliases.deep_view() =~~= arrs.take(i as int).map_values(
                                |v: ConfigValue| v.spec_as_str().unwrap_or(Seq::<char>::empty()),
                            ),
                        decreases n - i,
                    {
                        let ghost a0 = aliases.deep_view();
                        aliases.push(arr[i].as_str().unwrap());
                        proof {
                            assert(aliases.deep_view() =~~= a0.push(
                                arrs[i as int].spec_as_str().unwrap_or(Seq::<char>::empty()),
                            ));
                            assert(arrs.take(i as int + 1).map_values(
                                |v: ConfigValue| v.spec_as_str().unwrap_or(Seq::<char>::empty()),
                            ) =~~= a0.push(
                                arrs[i as int].spec_as_str().unwrap_or(Seq::<char>::empty()),
                            )) by {
                                assert(forall|k: int|
                                    0 <= k <= i ==> arrs.take(i as int + 1)[k] == arrs[k]);
                                assert(forall|k: int|
                                    0 <= k < i ==> arrs.take(i as int)[k] == arrs[k]);
                            }
                        }
                        i = i + 1;
                    }
                    proof {
                        assert(arrs.take(n as int) =~= arrs);
                        assert(aliases.deep_view() =~~= spec_cmd_aliases(*config_value));
                    }
                    aliases
                },
                None => Vec::new(),
            },
            None => Vec::new(),
        };
        proof {
            if config_value.spec_get("aliases"@) is None {
                assert(aliases.deep_view() =~~= Seq::<Seq<char>>::empty());
            } else if config_value.spec_get("aliases"@)->Some_0.spec_as_array() is None {
                assert(aliases.deep_view() =~~= Seq::<Seq<char>>::empty());
            }
        }
        let result = CommandDefinition {
            desc: config_value.get_as_str("desc"),
            run: match config_value.get_as_str("run") {
                Some(s) => s,
                None => {
                    proof {
                        reveal_strlit("true");
                    }
                    String::from_str("true")
                },
            },
            aliases,
            syntax,
            category,
            subcommands,
            source: config_value.clone_source(),
        };
        proof {
            assert(cmd_model(result) == spec_cmd_def(*config_value)) by {
                assert(cmd_model(result).desc == spec_cmd_def(*config_value).desc);
                assert(cmd_model(result).run == spec_cmd_def(*config_value).run);
                assert(cmd_model(result).aliases == spec_cmd_def(*config_value).aliases);
                assert(cmd_model(result).category == spec_cmd_def(*config_value).category);
                assert(cmd_model(result).syntax == spec_cmd_def(*config_value).syntax);
                assert(cmd_model(result).subcommands == spec_cmd_def(*config_value).subcommands);
                assert(cmd_model(result).source == spec_cmd_def(*config_value).source);
            }
        }
        result
    }
}

/// Index of the first entry under `key`, if any.
fn find_key_index(m: &Vec<(String, ConfigValue)>, key: &str) -> (r: Option<usize>)
    ensures
        match r {
            Some(i) => i < m@.len() && m@[i as int].0@ == key@ && (forall|k: int|
                0 <= k < i ==> m@[k].0@ != key@),
            None => forall|k: int| 0 <= k < m@.len() ==> m@[k].0@ != key@,
        },
{
    let n = m.len();
    let mut i: usize = 0;
    while i < n
        invariant
            i <= n,
            n == m@.len(),
            forall|k: int| 0 <= k < i ==> m@[k].0@ != key@,
        decreases n - i,
    {
        if strutil::str_eq(m[i].0.as_str(), key) {
            return Some(i);
        }
        i = i + 1;
    }
    None
}

/// A key under no entry resolves to nothing.
pub proof fn lemma_assoc_get_absent(m: Seq<(String, ConfigValue)>, key: Seq<char>)
    requires
        forall|k: int| 0 <= k < m.len() ==> m[k].0@ != key,
    ensures
        spec_assoc_get(m, key) is None,
    decreases m.len(),
{
    if m.len() > 0 {
        assert(forall|k: int|
            0 <= k < m.drop_first().len() ==> m.drop_first()[k] == m[k + 1]);
        lemma_assoc_get_absent(m.drop_first(), key);
    }
}

/// At the first index whose key matches, the walk stops.
pub proof fn lemma_assoc_get_first(m: Seq<(String, ConfigValue)>, key: Seq<char>, i: int)
    requires
        0 <= i < m.len(),
        m[i].0@ == key,
        forall|k: int| 0 <= k < i ==> m[k].0@ != key,
    ensures
        spec_assoc_get(m, key) == Some(m[i].1),
    decreases i,
{
    if i > 0 {
        lemma_assoc_get_first(m.drop_first(), key, i - 1);
        assert(m.drop_first()[i - 1] == m[i]);
    }
}

/// The search predicate reaches the first `subcommands` entry.
pub proof fn lemma_subs_search_found(m: Seq<(String, ConfigValue)>, i: int)
    requires
        spec_subs_search_ok(m),
        0 <= i < m.len(),
        m[i].0@ == "subcommands"@,
        forall|k: int| 0 <= k < i ==> m[k].0@ != "subcommands"@,
    ensures
        match m[i].1.data {
            Some(d) => match *d {
                ConfigData::Mapping(inner) => spec_cmds_ok(inner@),
                _ => true,
            },
            None => true,
        },
    decreases i,
{
    if i > 0 {
        lemma_subs_search_found(m.drop_first(), i - 1);
        assert(m.drop_first()[i - 1] == m[i]);
    }
}

/// The node under `per_repo_config` parses cleanly.
pub open spec fn spec_per_repo_ok(v: ConfigValue) -> bool {
    &&& (v.spec_get("enabled"@) matches Some(b) ==> b.spec_as_bool() is Some)
    &&& (v.spec_get("ref_type"@) matches Some(s) ==> s.spec_as_str() is Some)
    &&& (v.spec_get("ref_match"@) matches Some(s) ==> s.spec_as_str() is Some)
}

/// First per-repository override under `key`.
pub open spec fn spec_assoc_get_repo(
    m: Seq<(String, PathRepoUpdatesPerRepoConfig)>,
    key: Seq<char>,
) -> Option<PathRepoUpdatesPerRepoConfig>
    decreases m.len(),
{
    if m.len() == 0 {
        None
    } else if m[0].0@ == key {
        Some(m[0].1)
    } else {
        spec_assoc_get_repo(m.drop_first(), key)
    }
}

} // verus!
