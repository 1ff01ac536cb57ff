//! The declarative configuration model: global tunables, share declarations,
//! alias declarations, validation, and the path derivations every other
//! component builds on.
//!
//! Paths are plain strings here. Looking up the user's home directory is an
//! environment effect, so every function that expands `~` takes the home
//! directory as an argument.

use vstd::prelude::*;

use crate::strings::{
    eq_ignore_ascii_case, eq_ignore_case, is_blank, is_blank_seq, starts_with, substring,
};
use crate::Backend;

verus! {

/// Global tunables. Every field has a default (see the `default_*`
/// functions).
#[derive(Debug, Clone, PartialEq)]
pub struct GlobalConfig {
    pub shares_root: String,
    pub check_interval_secs: u64,
    pub auto_failback: bool,
    pub auto_failback_stable_secs: u64,
    pub connect_timeout_ms: u64,
    pub lsof_recheck: bool,
}

/// One managed share: a name, the two backend hosts, and the remote share to
/// mount.
#[derive(Debug, Clone, PartialEq)]
pub struct ShareConfig {
    pub name: String,
    pub username: String,
    pub thunderbolt_host: String,
    pub fallback_host: String,
    pub share_name: String,
}

/// A managed alias: a symlink at `path` into a subpath of a share's stable
/// path.
#[derive(Debug, Clone, PartialEq)]
pub struct AliasConfig {
    pub name: String,
    pub path: String,
    pub share: String,
    pub target_subpath: String,
}

/// The full declarative configuration.
#[derive(Debug, Clone, PartialEq)]
pub struct Config {
    pub global: GlobalConfig,
    pub shares: Vec<ShareConfig>,
    pub aliases: Vec<AliasConfig>,
}

pub fn default_shares_root() -> (r: String)
    ensures
        r@ == "~/Shares"@,
{
    "~/Shares".to_owned()
}

pub fn default_check_interval_secs() -> (r: u64)
    ensures
        r == 2,
{
    2
}

pub fn default_auto_failback() -> (r: bool)
    ensures
        r == false,
{
    false
}

pub fn default_auto_failback_stable_secs() -> (r: u64)
    ensures
        r == 30,
{
    30
}

pub fn default_connect_timeout_ms() -> (r: u64)
    ensures
        r == 800,
{
    800
}

pub fn default_lsof_recheck() -> (r: bool)
    ensures
        r == true,
{
    true
}

/// What the default global configuration looks like.
pub open spec fn is_default_global(g: GlobalConfig) -> bool {
    &&& g.shares_root@ == "~/Shares"@
    &&& g.check_interval_secs == 2
    &&& g.auto_failback == false
    &&& g.auto_failback_stable_secs == 30
    &&& g.connect_timeout_ms == 800
    &&& g.lsof_recheck == true
}

impl Default for GlobalConfig {
    fn default() -> (r: GlobalConfig)
        ensures
            is_default_global(r),
    {
        GlobalConfig {
            shares_root: default_shares_root(),
            check_interval_secs: default_check_interval_secs(),
            auto_failback: default_auto_failback(),
            auto_failback_stable_secs: default_auto_failback_stable_secs(),
            connect_timeout_ms: default_connect_timeout_ms(),
            lsof_recheck: default_lsof_recheck(),
        }
    }
}

impl Default for Config {
    fn default() -> (r: Config)
        ensures
            is_default_global(r.global),
            r.shares@.len() == 0,
            r.aliases@.len() == 0,
    {
        Config { global: GlobalConfig::default(), shares: Vec::new(), aliases: Vec::new() }
    }
}

/// A validation failure, carrying the offending name where there is one.
#[derive(Debug, Clone)]
pub enum ConfigError {
    EmptyShareName,
    EmptyThunderboltHost { share: String },
    EmptyFallbackHost { share: String },
    DuplicateShareName { share: String },
    EmptyAliasName,
    DuplicateAliasName { alias: String },
}

impl ConfigError {
    /// The human-readable message for this validation failure.
    pub fn message(&self) -> (r: String)
        ensures
            self is EmptyShareName ==> r@ == "config error: share has empty name"@,
            self is EmptyAliasName ==> r@ == "config error: alias has empty name"@,
            self matches ConfigError::EmptyThunderboltHost { share } ==> r@ == "config error: share '"@
                + share@ + "' has empty thunderbolt_host"@,
            self matches ConfigError::EmptyFallbackHost { share } ==> r@ == "config error: share '"@
                + share@ + "' has empty fallback_host"@,
            self matches ConfigError::DuplicateShareName { share } ==> r@
                == "config error: duplicate share name '"@ + share@ + "'"@,
            self matches ConfigError::DuplicateAliasName { alias } ==> r@
                == "config error: duplicate alias name '"@ + alias@ + "'"@,
    {
        match self {
            ConfigError::EmptyShareName => "config error: share has empty name".to_owned(),
            ConfigError::EmptyAliasName => "config error: alias has empty name".to_owned(),
            ConfigError::EmptyThunderboltHost { share } => {
                let mut s = "config error: share '".to_owned();
                s.append(share.as_str());
                s.append("' has empty thunderbolt_host");
                s
            },
            ConfigError::EmptyFallbackHost { share } => {
                let mut s = "config error: share '".to_owned();
                s.append(share.as_str());
                s.append("' has empty fallback_host");
                s
            },
            ConfigError::DuplicateShareName { share } => {
                let mut s = "config error: duplicate share name '".to_owned();
                s.append(share.as_str());
                s.append("'");
                s
            },
            ConfigError::DuplicateAliasName { alias } => {
                let mut s = "config error: duplicate alias name '".to_owned();
                s.append(alias.as_str());
                s.append("'");
                s
            },
        }
    }
}

/// A share declaration is well formed: no required field is empty (or
/// whitespace only).
pub open spec fn share_fields_ok(s: ShareConfig) -> bool {
    &&& !is_blank_seq(s.name@)
    &&& !is_blank_seq(s.thunderbolt_host@)
    &&& !is_blank_seq(s.fallback_host@)
}

/// No two entries share a name, comparing names case-insensitively.
pub open spec fn share_names_unique(shares: Seq<ShareConfig>) -> bool {
    forall|i: int, j: int|
        0 <= i < j < shares.len() ==> !eq_ignore_case(shares[i].name@, shares[j].name@)
}

pub open spec fn alias_names_unique(aliases: Seq<AliasConfig>) -> bool {
    forall|i: int, j: int|
        0 <= i < j < aliases.len() ==> !eq_ignore_case(aliases[i].name@, aliases[j].name@)
}

/// The whole configuration passes validation.
pub open spec fn config_valid(c: Config) -> bool {
    &&& forall|i: int| 0 <= i < c.shares@.len() ==> share_fields_ok(#[trigger] c.shares@[i])
    &&& share_names_unique(c.shares@)
    &&& forall|i: int| 0 <= i < c.aliases@.len() ==> !is_blank_seq(#[trigger] c.aliases@[i].name@)
    &&& alias_names_unique(c.aliases@)
}

/// Validate a configuration: reject blank names, blank hosts, and duplicate
/// (case-insensitive) share or alias names.
pub fn validate(config: &Config) -> (r: Result<(), ConfigError>)
    ensures
        r is Ok <==> config_valid(*config),
        r matches Err(ConfigError::DuplicateShareName { share }) ==> exists|i: int, j: int|
            0 <= i < j < config.shares@.len() && eq_ignore_case(
                config.shares@[i].name@,
                config.shares@[j].name@,
            ) && config.shares@[j].name == share,
        r matches Err(ConfigError::DuplicateAliasName { alias }) ==> exists|i: int, j: int|
            0 <= i < j < config.aliases@.len() && eq_ignore_case(
                config.aliases@[i].name@,
                config.aliases@[j].name@,
            ) && config.aliases@[j].name == alias,
        r matches Err(ConfigError::EmptyShareName) ==> exists|i: int|
            0 <= i < config.shares@.len() && is_blank_seq(#[trigger] config.shares@[i].name@),
        r matches Err(ConfigError::EmptyThunderboltHost { share }) ==> exists|i: int|
            0 <= i < config.shares@.len() && is_blank_seq(
                #[trigger] config.shares@[i].thunderbolt_host@,
            ) && config.shares@[i].name == share,
        r matches Err(ConfigError::EmptyFallbackHost { share }) ==> exists|i: int|
            0 <= i < config.shares@.len() && is_blank_seq(
                #[trigger] config.shares@[i].fallback_host@,
            ) && config.shares@[i].name == share,
        r matches Err(ConfigError::EmptyAliasName) ==> exists|i: int|
            0 <= i < config.aliases@.len() && is_blank_seq(#[trigger] config.aliases@[i].name@),
{
    let n = config.shares.len();
    let mut i: usize = 0;
    while i < n
        invariant
            n == config.shares@.len(),
            i <= n,
            forall|k: int| 0 <= k < i ==> share_fields_ok(#[trigger] config.shares@[k]),
            forall|p: int, q: int|
                0 <= p < q < i ==> !eq_ignore_case(
                    config.shares@[p].name@,
                    config.shares@[q].name@,
                ),
        decreases n - i,
    {
        let share = &config.shares[i];
        if is_blank(share.name.as_str()) {
            return Err(ConfigError::EmptyShareName);
        }
        if is_blank(share.thunderbolt_host.as_str()) {
            return Err(ConfigError::EmptyThunderboltHost { share: share.name.clone() });
        }
        if is_blank(share.fallback_host.as_str()) {
            return Err(ConfigError::EmptyFallbackHost { share: share.name.clone() });
        }
        let mut j: usize = 0;
        while j < i
            invariant
                n == config.shares@.len(),
                i < n,
                j <= i,
                forall|p: int|
                    0 <= p < j ==> !eq_ignore_case(
                        config.shares@[p].name@,
                        config.shares@[i as int].name@,
                    ),
            decreases i - j,
        {
            if eq_ignore_ascii_case(config.shares[j].name.as_str(), config.shares[i].name.as_str()) {
                proof {
                    assert(eq_ignore_case(
                        config.shares@[j as int].name@,
                        config.shares@[i as int].name@,
                    ));
                    assert(!share_names_unique(config.shares@));
                }
                return Err(ConfigError::DuplicateShareName { share: config.shares[i].name.clone() });
            }
            proof {
                assert(!eq_ignore_case(
                    config.shares@[j as int].name@,
                    config.shares@[i as int].name@,
                ));
            }
            j += 1;
        }
        i += 1;
    }

    let m = config.aliases.len();
    let mut i: usize = 0;
    while i < m
        invariant
            m == config.aliases@.len(),
            i <= m,
            n == config.shares@.len(),
            forall|k: int| 0 <= k < n ==> share_fields_ok(#[trigger] config.shares@[k]),
            share_names_unique(config.shares@),
            forall|k: int| 0 <= k < i ==> !is_blank_seq(#[trigger] config.aliases@[k].name@),
            forall|p: int, q: int|
                0 <= p < q < i ==> !eq_ignore_case(
                    config.aliases@[p].name@,
                    config.aliases@[q].name@,
                ),
        decreases m - i,
    {
        let alias = &config.aliases[i];
        if is_blank(alias.name.as_str()) {
            return Err(ConfigError::EmptyAliasName);
        }
        let mut j: usize = 0;
        while j < i
            invariant
                m == config.aliases@.len(),
                i < m,
                j <= i,
                forall|p: int|
                    0 <= p < j ==> !eq_ignore_case(
                        config.aliases@[p].name@,
                        config.aliases@[i as int].name@,
                    ),
            decreases i - j,
        {
            if eq_ignore_ascii_case(config.aliases[j].name.as_str(), config.aliases[i].name.as_str()) {
                proof {
                    assert(eq_ignore_case(
                        config.aliases@[j as int].name@,
                        config.aliases@[i as int].name@,
                    ));
                    assert(!alias_names_unique(config.aliases@));
                }
                return Err(ConfigError::DuplicateAliasName { alias: config.aliases[i].name.clone() });
            }
            proof {
                assert(!eq_ignore_case(
                    config.aliases@[j as int].name@,
                    config.aliases@[i as int].name@,
                ));
            }
            j += 1;
        }
        i += 1;
    }
    Ok(())
}

/// Expansion of a leading `~` against the given home directory: `~` alone
/// becomes `home`, `~/rest` becomes `home/rest`, anything else is unchanged.
pub open spec fn spec_expand_path(path: Seq<char>, home: Seq<char>) -> Seq<char> {
    if path.len() == 1 && path[0] == '~' {
        home
    } else if path.len() >= 2 && path[0] == '~' && path[1] == '/' {
        home + path.subrange(1, path.len() as int)
    } else {
        path
    }
}

/// Joining a path and a relative component with a slash.
pub open spec fn spec_join(base: Seq<char>, leaf: Seq<char>) -> Seq<char> {
    base + seq!['/'] + leaf
}

/// Expand a leading `~` in `path` against the home directory.
pub fn expand_path(path: &str, home: &str) -> (r: String)
    ensures
        r@ == spec_expand_path(path@, home@),
{
    proof {
        reveal_strlit("~");
        reveal_strlit("~/");
    }
    if str_len(path) == 1 && starts_with(path, "~") {
        proof {
            assert(path@ =~= path@.subrange(0, 1));
            assert(path@[0] == '~');
        }
        return home.to_owned();
    }
    if starts_with(path, "~/") {
        let plen = path.unicode_len();
        let rest = substring(path, 1, plen);
        let mut out = home.to_owned();
        out.append(rest.as_str());
        proof {
            assert(path@.subrange(0, 2)[0] == path@[0]);
            assert(path@.subrange(0, 2)[1] == path@[1]);
            assert(path@[0] == '~' && path@[1] == '/');
            assert(out@ =~= spec_expand_path(path@, home@));
        }
        return out;
    }
    proof {
        if path@.len() == 1 && path@[0] == '~' {
            assert(path@.subrange(0, 1) =~= path@);
            assert(path@.subrange(0, 1) =~= "~"@);
        }
        if path@.len() >= 2 && path@[0] == '~' && path@[1] == '/' {
            assert(path@.subrange(0, 2) =~= "~/"@);
        }
    }
    path.to_owned()
}

fn str_len(s: &str) -> (r: usize)
    ensures
        r == s@.len(),
{
    s.unicode_len()
}

/// Join a relative component onto a base path with a slash.
pub fn join_path(base: &str, leaf: &str) -> (r: String)
    ensures
        r@ == spec_join(base@, leaf@),
{
    proof {
        reveal_strlit("/");
    }
    let mut out = base.to_owned();
    out.append("/");
    out.append(leaf);
    proof {
        assert("/"@ =~= seq!['/']);
        assert(out@ =~= spec_join(base@, leaf@));
    }
    out
}

/// The root directory under which stable share symlinks are published.
pub fn shares_root_path(config: &Config, home: &str) -> (r: String)
    ensures
        r@ == spec_expand_path(config.global.shares_root@, home@),
{
    expand_path(config.global.shares_root.as_str(), home)
}

/// The stable path for a share: `<shares_root>/<name>`.
pub fn share_stable_path(config: &Config, home: &str, share_name: &str) -> (r: String)
    ensures
        r@ == spec_join(spec_expand_path(config.global.shares_root@, home@), share_name@),
{
    let root = shares_root_path(config, home);
    join_path(root.as_str(), share_name)
}

/// The OS-managed volume mount point at `/Volumes/<share_name>`. Both
/// backends mount to this single path; the `/Volumes` directory itself is
/// managed by the OS and is never created here.
pub fn volume_mount_path(share_name: &str) -> (r: String)
    ensures
        r@ == spec_join("/Volumes"@, share_name@),
{
    join_path("/Volumes", share_name)
}

/// The mount point used for a share, identical for either backend: the
/// single-mount architecture has both backends compete for one path.
pub fn backend_mount_path(share_name: &str, backend: Backend) -> (r: String)
    ensures
        r@ == spec_join("/Volumes"@, share_name@),
{
    let _ = backend;
    volume_mount_path(share_name)
}

/// Where an alias symlink lives when the user gives no explicit path:
/// `<shares_root>/Links/<alias_name>`.
pub fn default_alias_path(config: &Config, home: &str, alias_name: &str) -> (r: String)
    ensures
        r@ == spec_join(
            spec_join(spec_expand_path(config.global.shares_root@, home@), "Links"@),
            alias_name@,
        ),
{
    let root = shares_root_path(config, home);
    let links = join_path(root.as_str(), "Links");
    join_path(links.as_str(), alias_name)
}

/// The subpath with leading and trailing `/` characters removed.
pub open spec fn spec_trim_slashes(s: Seq<char>) -> Seq<char> {
    trim_trailing_slashes(trim_leading_slashes(s))
}

pub open spec fn trim_leading_slashes(s: Seq<char>) -> Seq<char>
    decreases s.len(),
{
    if s.len() > 0 && s[0] == '/' {
        trim_leading_slashes(s.drop_first())
    } else {
        s
    }
}

pub open spec fn trim_trailing_slashes(s: Seq<char>) -> Seq<char>
    decreases s.len(),
{
    if s.len() > 0 && s[s.len() - 1] == '/' {
        trim_trailing_slashes(s.drop_last())
    } else {
        s
    }
}

/// Remove leading and trailing slashes from a subpath.
pub fn trim_slashes(s: &str) -> (r: String)
    ensures
        r@ == spec_trim_slashes(s@),
{
    let len = s.unicode_len();
    proof {
        assert(s@.subrange(0, len as int) =~= s@);
    }
    let mut from: usize = 0;
    while from < len && s.get_char(from) == '/'
        invariant
            len == s@.len(),
            from <= len,
            trim_leading_slashes(s@) == trim_leading_slashes(
                s@.subrange(from as int, len as int),
            ),
        decreases len - from,
    {
        proof {
            assert(s@.subrange(from as int, len as int).drop_first() =~= s@.subrange(
                from as int + 1,
                len as int,
            ));
        }
        from += 1;
    }
    let ghost m: Seq<char> = trim_leading_slashes(s@);
    proof {
        lemma_trim_leading_fixed(s@.subrange(from as int, len as int));
        assert(m == s@.subrange(from as int, len as int));
    }
    let mut to: usize = len;
    while to > from && s.get_char(to - 1) == '/'
        invariant
            len == s@.len(),
            from <= to <= len,
            trim_trailing_slashes(m) == trim_trailing_slashes(s@.subrange(from as int, to as int)),
        decreases to,
    {
        proof {
            assert(s@.subrange(from as int, to as int).drop_last() =~= s@.subrange(
                from as int,
                to as int - 1,
            ));
        }
        to -= 1;
    }
    proof {
        lemma_trim_trailing_fixed(s@.subrange(from as int, to as int));
    }
    substring(s, from, to)
}

/// A sequence that does not start with a slash is unchanged by
/// `trim_leading_slashes`.
proof fn lemma_trim_leading_fixed(s: Seq<char>)
    ensures
        (s.len() == 0 || s[0] != '/') ==> trim_leading_slashes(s) == s,
{
}

/// A sequence that does not end with a slash is unchanged by
/// `trim_trailing_slashes`.
proof fn lemma_trim_trailing_fixed(s: Seq<char>)
    ensures
        (s.len() == 0 || s[s.len() - 1] != '/') ==> trim_trailing_slashes(s) == s,
{
}

/// The target an alias symlink should point at:
/// `<shares_root>/<share>/<subpath>`, with the subpath's surrounding slashes
/// stripped, or the share's stable path alone when the subpath is empty.
pub open spec fn spec_alias_target_path(
    config: Config,
    home: Seq<char>,
    alias: AliasConfig,
) -> Seq<char> {
    let stable = spec_join(spec_expand_path(config.global.shares_root@, home), alias.share@);
    let sub = spec_trim_slashes(alias.target_subpath@);
    if sub.len() == 0 {
        stable
    } else {
        spec_join(stable, sub)
    }
}

pub fn alias_target_path(config: &Config, home: &str, alias: &AliasConfig) -> (r: String)
    ensures
        r@ == spec_alias_target_path(*config, home@, *alias),
{
    let stable = share_stable_path(config, home, alias.share.as_str());
    let sub = trim_slashes(alias.target_subpath.as_str());
    if sub.as_str().unicode_len() == 0 {
        stable
    } else {
        join_path(stable.as_str(), sub.as_str())
    }
}

/// Find the share with the given name, comparing case-insensitively.
pub fn find_share<'a>(config: &'a Config, name: &str) -> (r: Option<&'a ShareConfig>)
    ensures
        match r {
            Some(s) => exists|i: int|
                0 <= i < config.shares@.len() && config.shares@[i] == *s && eq_ignore_case(
                    s.name@,
                    name@,
                ),
            None => forall|i: int|
                0 <= i < config.shares@.len() ==> !eq_ignore_case(
                    #[trigger] config.shares@[i].name@,
                    name@,
                ),
        },
{
    let n = config.shares.len();
    let mut i: usize = 0;
    while i < n
        invariant
            n == config.shares@.len(),
            i <= n,
            forall|k: int|
                0 <= k < i ==> !eq_ignore_case(#[trigger] config.shares@[k].name@, name@),
        decreases n - i,
    {
        if eq_ignore_ascii_case(config.shares[i].name.as_str(), name) {
            return Some(&config.shares[i]);
        }
        i += 1;
    }
    None
}

/// A path string unchanged; alias paths are stored exactly as the user gave
/// them (after optional expansion by the caller).
pub fn normalize_alias_path(path: &str) -> (r: String)
    ensures
        r@ == path@,
{
    path.to_owned()
}


impl ShareConfig {
    /// A value-equal copy.
    pub fn duplicate(&self) -> (r: ShareConfig)
        ensures
            r == *self,
    {
        ShareConfig {
            name: self.name.clone(),
            username: self.username.clone(),
            thunderbolt_host: self.thunderbolt_host.clone(),
            fallback_host: self.fallback_host.clone(),
            share_name: self.share_name.clone(),
        }
    }
}

impl AliasConfig {
    /// A value-equal copy.
    pub fn duplicate(&self) -> (r: AliasConfig)
        ensures
            r == *self,
    {
        AliasConfig {
            name: self.name.clone(),
            path: self.path.clone(),
            share: self.share.clone(),
            target_subpath: self.target_subpath.clone(),
        }
    }
}

} // verus!
