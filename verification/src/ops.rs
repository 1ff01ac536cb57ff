//! The operations user commands perform on the configuration, and the small
//! helpers the command surface uses: share and alias management, share
//! selection, and value parsing.

use vstd::prelude::*;
use vstd::pervasive::VecAdditionalExecFns;

use crate::config::{
    alias_target_path, expand_path, find_share, spec_alias_target_path, spec_expand_path,
    AliasConfig, Config, GlobalConfig, ShareConfig,
};
use crate::status::{inspect_alias, spec_alias_healthy, AliasObservation, AliasStatus};
use crate::strings::{eq_ignore_ascii_case, eq_ignore_case, lower_seq};

verus! {

/// Why a share or alias operation was refused.
#[derive(Debug, Clone)]
pub enum OpError {
    AliasExists { name: String },
    AliasNotFound { name: String },
    ShareNotConfigured { name: String },
    ShareNotFound { name: String },
}

impl OpError {
    /// The human-readable message for this refusal.
    pub fn message(&self) -> (r: String)
        ensures
            self matches OpError::AliasExists { name } ==> r@ == "alias '"@ + name@
                + "' already exists"@,
            self matches OpError::AliasNotFound { name } ==> r@ == "alias '"@ + name@
                + "' was not found"@,
            self matches OpError::ShareNotConfigured { name } ==> r@ == "share '"@ + name@
                + "' is not configured"@,
            self matches OpError::ShareNotFound { name } ==> r@ == "favorite '"@ + name@
                + "' was not found"@,
    {
        match self {
            OpError::AliasExists { name } => {
                let mut s = "alias '".to_owned();
                s.append(name.as_str());
                s.append("' already exists");
                s
            },
            OpError::AliasNotFound { name } => {
                let mut s = "alias '".to_owned();
                s.append(name.as_str());
                s.append("' was not found");
                s
            },
            OpError::ShareNotConfigured { name } => {
                let mut s = "share '".to_owned();
                s.append(name.as_str());
                s.append("' is not configured");
                s
            },
            OpError::ShareNotFound { name } => {
                let mut s = "favorite '".to_owned();
                s.append(name.as_str());
                s.append("' was not found");
                s
            },
        }
    }
}

/// Add an alias: refused when an alias of that name (case-insensitively)
/// already exists or when the share it refers to is not configured.
pub fn add_alias(config: &mut Config, alias: AliasConfig) -> (r: Result<(), OpError>)
    ensures
        r is Ok ==> final (config).aliases@ == old(config).aliases@.push(alias),
        r is Ok ==> final (config).shares@ == old(config).shares@,
        r is Err ==> *final (config) == *old(config),
        r is Err ==> (r matches Err(OpError::AliasExists { .. }) || r matches Err(
            OpError::ShareNotConfigured { .. },
        )),
        r matches Err(OpError::AliasExists { name }) ==> name == alias.name && exists|i: int|
            0 <= i < old(config).aliases@.len() && eq_ignore_case(
                #[trigger] old(config).aliases@[i].name@,
                alias.name@,
            ),
        r matches Err(OpError::ShareNotConfigured { name }) ==> name == alias.share && forall|
            i: int,
        |
            0 <= i < old(config).shares@.len() ==> !eq_ignore_case(
                #[trigger] old(config).shares@[i].name@,
                alias.share@,
            ),
        r is Ok ==> (forall|i: int|
            0 <= i < old(config).aliases@.len() ==> !eq_ignore_case(
                #[trigger] old(config).aliases@[i].name@,
                alias.name@,
            )) && (exists|i: int|
            0 <= i < old(config).shares@.len() && eq_ignore_case(
                #[trigger] old(config).shares@[i].name@,
                alias.share@,
            )),
{
    let n = config.aliases.len();
    let mut i: usize = 0;
    while i < n
        invariant
            n == config.aliases@.len(),
            i <= n,
            *config == *old(config),
            forall|j: int|
                0 <= j < i ==> !eq_ignore_case(
                    #[trigger] config.aliases@[j].name@,
                    alias.name@,
                ),
        decreases n - i,
    {
        if eq_ignore_ascii_case(config.aliases[i].name.as_str(), alias.name.as_str()) {
            return Err(OpError::AliasExists { name: alias.name });
        }
        i += 1;
    }
    if find_share(config, alias.share.as_str()).is_none() {
        return Err(OpError::ShareNotConfigured { name: alias.share });
    }
    config.aliases.push(alias);
    Ok(())
}

/// Remove the alias with the given name (case-insensitively); the removed
/// declaration is returned.
pub fn remove_alias(config: &mut Config, name: &str) -> (r: Result<AliasConfig, OpError>)
    ensures
        r matches Ok(a) ==> exists|i: int|
            0 <= i < old(config).aliases@.len() && a == old(config).aliases@[i]
                && eq_ignore_case(a.name@, name@) && (forall|j: int|
                0 <= j < i ==> !eq_ignore_case(
                    #[trigger] old(config).aliases@[j].name@,
                    name@,
                )) && final (config).aliases@ == old(config).aliases@.remove(i),
        r is Ok ==> final (config).shares@ == old(config).shares@,
        r is Err ==> *final (config) == *old(config) && (forall|i: int|
            0 <= i < old(config).aliases@.len() ==> !eq_ignore_case(
                #[trigger] old(config).aliases@[i].name@,
                name@,
            )),
{
    let n = config.aliases.len();
    let mut i: usize = 0;
    while i < n
        invariant
            n == config.aliases@.len(),
            i <= n,
            *config == *old(config),
            forall|j: int|
                0 <= j < i ==> !eq_ignore_case(#[trigger] config.aliases@[j].name@, name@),
        decreases n - i,
    {
        if eq_ignore_ascii_case(config.aliases[i].name.as_str(), name) {
            let removed = config.aliases.remove(i);
            return Ok(removed);
        }
        i += 1;
    }
    Err(OpError::AliasNotFound { name: name.to_owned() })
}

/// Add a share, or replace the first existing share of the same name
/// (case-insensitively). Returns whether an existing share was replaced.
pub fn add_or_update_share(config: &mut Config, share: ShareConfig) -> (r: bool)
    ensures
        final (config).aliases@ == old(config).aliases@,
        r ==> exists|i: int|
            0 <= i < old(config).shares@.len() && eq_ignore_case(
                #[trigger] old(config).shares@[i].name@,
                share.name@,
            ) && final (config).shares@ == old(config).shares@.update(i, share),
        !r ==> (forall|i: int|
            0 <= i < old(config).shares@.len() ==> !eq_ignore_case(
                #[trigger] old(config).shares@[i].name@,
                share.name@,
            )) && final (config).shares@ == old(config).shares@.push(share),
{
    let n = config.shares.len();
    let mut i: usize = 0;
    while i < n
        invariant
            n == config.shares@.len(),
            i <= n,
            *config == *old(config),
            forall|j: int|
                0 <= j < i ==> !eq_ignore_case(#[trigger] config.shares@[j].name@, share.name@),
        decreases n - i,
    {
        if eq_ignore_ascii_case(config.shares[i].name.as_str(), share.name.as_str()) {
            config.shares.set(i, share);
            return true;
        }
        i += 1;
    }
    config.shares.push(share);
    false
}

/// Remove the share with the given name (case-insensitively); the removed
/// declaration is returned.
pub fn remove_share(config: &mut Config, share_name: &str) -> (r: Option<ShareConfig>)
    ensures
        r matches Some(s) ==> exists|i: int|
            0 <= i < old(config).shares@.len() && s == old(config).shares@[i] && eq_ignore_case(
                s.name@,
                share_name@,
            ) && (forall|j: int|
                0 <= j < i ==> !eq_ignore_case(
                    #[trigger] old(config).shares@[j].name@,
                    share_name@,
                )) && final (config).shares@ == old(config).shares@.remove(i),
        r is Some ==> final (config).aliases@ == old(config).aliases@,
        r is None ==> *final (config) == *old(config) && (forall|i: int|
            0 <= i < old(config).shares@.len() ==> !eq_ignore_case(
                #[trigger] old(config).shares@[i].name@,
                share_name@,
            )),
{
    let n = config.shares.len();
    let mut i: usize = 0;
    while i < n
        invariant
            n == config.shares@.len(),
            i <= n,
            *config == *old(config),
            forall|j: int|
                0 <= j < i ==> !eq_ignore_case(#[trigger] config.shares@[j].name@, share_name@),
        decreases n - i,
    {
        if eq_ignore_ascii_case(config.shares[i].name.as_str(), share_name) {
            let removed = config.shares.remove(i);
            return Some(removed);
        }
        i += 1;
    }
    None
}

/// How many aliases reference a share (case-insensitively). A share removal
/// reports this count; the aliases themselves are not deleted.
pub open spec fn spec_count_aliases_for_share(aliases: Seq<AliasConfig>, share: Seq<char>) -> nat
    decreases aliases.len(),
{
    if aliases.len() == 0 {
        0
    } else {
        spec_count_aliases_for_share(aliases.drop_last(), share) + (if eq_ignore_case(
            aliases.last().share@,
            share,
        ) {
            1nat
        } else {
            0nat
        })
    }
}

pub fn count_aliases_for_share(config: &Config, share_name: &str) -> (r: usize)
    ensures
        r == spec_count_aliases_for_share(config.aliases@, share_name@),
{
    let n = config.aliases.len();
    let mut count: usize = 0;
    let mut i: usize = 0;
    proof {
        assert(config.aliases@.subrange(0, 0) =~= Seq::<AliasConfig>::empty());
    }
    while i < n
        invariant
            n == config.aliases@.len(),
            i <= n,
            count <= i,
            count == spec_count_aliases_for_share(
                config.aliases@.subrange(0, i as int),
                share_name@,
            ),
        decreases n - i,
    {
        proof {
            assert(config.aliases@.subrange(0, i as int + 1).drop_last() =~= config.aliases@
                .subrange(0, i as int));
            assert(config.aliases@.subrange(0, i as int + 1).last() == config.aliases@[i as int]);
        }
        if eq_ignore_ascii_case(config.aliases[i].share.as_str(), share_name) {
            count += 1;
        }
        i += 1;
    }
    proof {
        assert(config.aliases@.subrange(0, n as int) =~= config.aliases@);
    }
    count
}

/// The shares a command addresses: all of them when no names were given,
/// otherwise one per given name, in the given order. An unknown name refuses
/// the whole selection.
pub fn select_shares(config: &Config, share_names: &Vec<String>) -> (r: Result<
    Vec<ShareConfig>,
    OpError,
>)
    ensures
        share_names@.len() == 0 ==> (r matches Ok(v) && v@ == config.shares@),
        share_names@.len() > 0 ==> (r matches Ok(v) ==> v@.len() == share_names@.len() && (forall|
            i: int,
        |
            0 <= i < v@.len() ==> eq_ignore_case(
                (#[trigger] v@[i]).name@,
                share_names@[i]@,
            ) && (exists|j: int| 0 <= j < config.shares@.len() && v@[i] == config.shares@[j]))),
        r matches Err(OpError::ShareNotConfigured { name }) ==> exists|i: int|
            0 <= i < share_names@.len() && #[trigger] share_names@[i] == name && (forall|j: int|
                0 <= j < config.shares@.len() ==> !eq_ignore_case(
                    #[trigger] config.shares@[j].name@,
                    name@,
                )),
        r matches Err(e) ==> e is ShareNotConfigured,
{
    if share_names.len() == 0 {
        let mut out: Vec<ShareConfig> = Vec::new();
        let n = config.shares.len();
        let mut i: usize = 0;
        while i < n
            invariant
                n == config.shares@.len(),
                i <= n,
                out@ =~= config.shares@.subrange(0, i as int),
            decreases n - i,
        {
            out.push(config.shares[i].duplicate());
            proof {
                assert(out@ =~= config.shares@.subrange(0, i as int + 1));
            }
            i += 1;
        }
        proof {
            assert(config.shares@.subrange(0, n as int) =~= config.shares@);
        }
        return Ok(out);
    }
    let mut out: Vec<ShareConfig> = Vec::new();
    let n = share_names.len();
    let mut i: usize = 0;
    while i < n
        invariant
            n == share_names@.len(),
            i <= n,
            out@.len() == i,
            forall|j: int|
                0 <= j < i ==> eq_ignore_case(
                    (#[trigger] out@[j]).name@,
                    share_names@[j]@,
                ) && (exists|k: int| 0 <= k < config.shares@.len() && out@[j] == config.shares@[k]),
        decreases n - i,
    {
        match find_share(config, share_names[i].as_str()) {
            Some(s) => {
                out.push(s.duplicate());
            },
            None => {
                return Err(OpError::ShareNotConfigured { name: share_names[i].clone() });
            },
        }
        i += 1;
    }
    Ok(out)
}

/// The share names a command addresses: every configured share when `--all`
/// was given or no share was named, otherwise exactly the named share, which
/// must be configured.
pub fn resolve_target_shares(config: &Config, all: bool, share: &Option<String>) -> (r: Result<
    Vec<String>,
    OpError,
>)
    ensures
        (all || share is None) ==> (r matches Ok(v) && v@.len() == config.shares@.len() && (forall|
            i: int,
        | 0 <= i < v@.len() ==> #[trigger] v@[i]@ == config.shares@[i].name@)),
        !all ==> (share matches Some(name) ==> match r {
            Ok(v) => v@.len() == 1 && v@[0] == name && exists|j: int|
                0 <= j < config.shares@.len() && eq_ignore_case(
                    #[trigger] config.shares@[j].name@,
                    name@,
                ),
            Err(e) => e matches OpError::ShareNotConfigured { name: n } && n == name && (forall|
                j: int,
            |
                0 <= j < config.shares@.len() ==> !eq_ignore_case(
                    #[trigger] config.shares@[j].name@,
                    name@,
                )),
        }),
{
    if all || share.is_none() {
        let mut out: Vec<String> = Vec::new();
        let n = config.shares.len();
        let mut i: usize = 0;
        while i < n
            invariant
                n == config.shares@.len(),
                i <= n,
                out@.len() == i,
                forall|j: int| 0 <= j < i ==> #[trigger] out@[j]@ == config.shares@[j].name@,
            decreases n - i,
        {
            out.push(config.shares[i].name.clone());
            i += 1;
        }
        return Ok(out);
    }
    let name = match share {
        Some(n) => n,
        None => {
            return Ok(Vec::new());
        },
    };
    if find_share(config, name.as_str()).is_none() {
        return Err(OpError::ShareNotConfigured { name: name.clone() });
    }
    let mut out: Vec<String> = Vec::new();
    out.push(name.clone());
    Ok(out)
}

/// Whether any share is configured; commands that work on shares refuse to
/// run against an empty configuration.
pub fn ensure_has_shares(config: &Config) -> (r: bool)
    ensures
        r == (config.shares@.len() > 0),
{
    config.shares.len() > 0
}

/// The value reads as "on": one of the accepted spellings, case aside.
pub open spec fn spec_on_value(v: Seq<char>) -> bool {
    ||| eq_ignore_case(v, "on"@)
    ||| eq_ignore_case(v, "true"@)
    ||| eq_ignore_case(v, "1"@)
    ||| eq_ignore_case(v, "yes"@)
}

/// The value reads as "off".
pub open spec fn spec_off_value(v: Seq<char>) -> bool {
    ||| eq_ignore_case(v, "off"@)
    ||| eq_ignore_case(v, "false"@)
    ||| eq_ignore_case(v, "0"@)
    ||| eq_ignore_case(v, "no"@)
}

/// Read an on/off toggle value: `on`, `true`, `1` and `yes` switch on;
/// `off`, `false`, `0` and `no` switch off; case does not matter; anything
/// else is refused.
pub fn parse_on_off(value: &str) -> (r: Result<bool, String>)
    ensures
        r == Ok::<bool, String>(true) <==> spec_on_value(value@),
        r == Ok::<bool, String>(false) <==> spec_off_value(value@),
{
    if eq_ignore_ascii_case(value, "on") || eq_ignore_ascii_case(value, "true")
        || eq_ignore_ascii_case(value, "1") || eq_ignore_ascii_case(value, "yes") {
        proof {
            lemma_on_off_disjoint(value@);
        }
        Ok(true)
    } else if eq_ignore_ascii_case(value, "off") || eq_ignore_ascii_case(value, "false")
        || eq_ignore_ascii_case(value, "0") || eq_ignore_ascii_case(value, "no") {
        Ok(false)
    } else {
        let mut msg = "invalid value '".to_owned();
        msg.append(value);
        msg.append("': expected on|off");
        Err(msg)
    }
}

/// No value reads as both on and off: the accepted spellings have different
/// lower-casings.
proof fn lemma_on_off_disjoint(v: Seq<char>)
    ensures
        (eq_ignore_case(v, "on"@) || eq_ignore_case(v, "true"@) || eq_ignore_case(v, "1"@)
            || eq_ignore_case(v, "yes"@)) ==> !(eq_ignore_case(v, "off"@) || eq_ignore_case(
            v,
            "false"@,
        ) || eq_ignore_case(v, "0"@) || eq_ignore_case(v, "no"@)),
{
    reveal_strlit("on");
    reveal_strlit("true");
    reveal_strlit("1");
    reveal_strlit("yes");
    reveal_strlit("off");
    reveal_strlit("false");
    reveal_strlit("0");
    reveal_strlit("no");
    assert(lower_seq("on"@).len() == 2);
    assert(lower_seq("true"@).len() == 4);
    assert(lower_seq("1"@).len() == 1);
    assert(lower_seq("yes"@).len() == 3);
    assert(lower_seq("off"@).len() == 3);
    assert(lower_seq("false"@).len() == 5);
    assert(lower_seq("0"@).len() == 1);
    assert(lower_seq("no"@).len() == 2);
    assert(lower_seq("on"@)[0] == 'o' && lower_seq("no"@)[0] == 'n');
    assert(lower_seq("1"@)[0] == '1' && lower_seq("0"@)[0] == '0');
    assert(lower_seq("yes"@)[0] == 'y' && lower_seq("off"@)[0] == 'o');
}

/// The table cell for a boolean.
pub fn yes_no(value: bool) -> (r: &'static str)
    ensures
        value ==> r@ == "yes"@,
        !value ==> r@ == "no"@,
{
    if value {
        "yes"
    } else {
        "no"
    }
}

/// Judge every alias from its declaration and what was observed on disk;
/// entry `i` of the observations belongs to alias `i`.
pub fn inspect_aliases(config: &Config, home: &str, obs: &Vec<AliasObservation>) -> (r: Vec<
    AliasStatus,
>)
    requires
        obs@.len() == config.aliases@.len(),
    ensures
        r@.len() == config.aliases@.len(),
        forall|i: int|
            0 <= i < r@.len() ==> {
                let st = #[trigger] r@[i];
                &&& st.name == config.aliases@[i].name
                &&& st.share == config.aliases@[i].share
                &&& st.path@ == spec_expand_path(config.aliases@[i].path@, home@)
                &&& st.target@ == spec_alias_target_path(*config, home@, config.aliases@[i])
                &&& st.healthy == spec_alias_healthy(
                    obs@[i].current_target,
                    spec_alias_target_path(*config, home@, config.aliases@[i]),
                    obs@[i].target_exists,
                )
            },
{
    let mut out: Vec<AliasStatus> = Vec::new();
    let n = config.aliases.len();
    let mut i: usize = 0;
    while i < n
        invariant
            n == config.aliases@.len(),
            obs@.len() == n,
            i <= n,
            out@.len() == i,
            forall|j: int|
                0 <= j < i ==> {
                    let st = #[trigger] out@[j];
                    &&& st.name == config.aliases@[j].name
                    &&& st.share == config.aliases@[j].share
                    &&& st.path@ == spec_expand_path(config.aliases@[j].path@, home@)
                    &&& st.target@ == spec_alias_target_path(*config, home@, config.aliases@[j])
                    &&& st.healthy == spec_alias_healthy(
                        obs@[j].current_target,
                        spec_alias_target_path(*config, home@, config.aliases@[j]),
                        obs@[j].target_exists,
                    )
                },
        decreases n - i,
    {
        let st = reconcile_alias(config, home, &config.aliases[i], &obs[i]);
        out.push(st);
        i += 1;
    }
    out
}

/// Judge every alias after a repair pass; the observations were taken after
/// the repair, so their publish errors are part of the health report.
pub fn reconcile_aliases(config: &Config, home: &str, obs: &Vec<AliasObservation>) -> (r: Vec<
    AliasStatus,
>)
    requires
        obs@.len() == config.aliases@.len(),
    ensures
        r@.len() == config.aliases@.len(),
        forall|i: int|
            0 <= i < r@.len() ==> {
                let st = #[trigger] r@[i];
                &&& st.name == config.aliases@[i].name
                &&& st.healthy == spec_alias_healthy(
                    obs@[i].current_target,
                    spec_alias_target_path(*config, home@, config.aliases@[i]),
                    obs@[i].target_exists,
                )
            },
{
    inspect_aliases(config, home, obs)
}

/// Judge one alias from its declaration and what was observed on disk.
pub fn reconcile_alias(config: &Config, home: &str, alias: &AliasConfig, obs: &AliasObservation)
    -> (r: AliasStatus)
    ensures
        r.name == alias.name,
        r.share == alias.share,
        r.target_subpath == alias.target_subpath,
        r.path@ == spec_expand_path(alias.path@, home@),
        r.target@ == spec_alias_target_path(*config, home@, *alias),
        r.current_target == obs.current_target,
        r.target_exists == obs.target_exists,
        r.healthy == spec_alias_healthy(
            obs.current_target,
            spec_alias_target_path(*config, home@, *alias),
            obs.target_exists,
        ),
        obs.publish_error is Some ==> r.message == obs.publish_error,
{
    let path = expand_path(alias.path.as_str(), home);
    let target = alias_target_path(config, home, alias);
    inspect_alias(alias, path, target, obs)
}

/// Apply one `config set` assignment to the global tunables: the named key
/// takes the parsed value and every other field keeps its value. An unknown
/// key, a value that does not parse, or a zero interval or timeout is
/// refused and the tunables are returned unchanged inside the error path.
pub fn apply_config_set(g: &GlobalConfig, key: &str, value: &str) -> (r: Result<
    GlobalConfig,
    String,
>)
    ensures
        key@ == "lsof-recheck"@ ==> (spec_on_value(value@) ==> r == Ok::<GlobalConfig, String>(
            GlobalConfig { lsof_recheck: true, ..*g },
        )) && (spec_off_value(value@) ==> r == Ok::<GlobalConfig, String>(
            GlobalConfig { lsof_recheck: false, ..*g },
        )) && (!spec_on_value(value@) && !spec_off_value(value@) ==> r is Err),
        key@ == "auto-failback"@ ==> (spec_on_value(value@) ==> r == Ok::<GlobalConfig, String>(
            GlobalConfig { auto_failback: true, ..*g },
        )) && (spec_off_value(value@) ==> r == Ok::<GlobalConfig, String>(
            GlobalConfig { auto_failback: false, ..*g },
        )) && (!spec_on_value(value@) && !spec_off_value(value@) ==> r is Err),
        key@ == "check-interval"@ ==> (match crate::codec::spec_parse_u64(value@) {
            Some(n) => if n >= 1 {
                r == Ok::<GlobalConfig, String>(GlobalConfig { check_interval_secs: n, ..*g })
            } else {
                r is Err
            },
            None => r is Err,
        }),
        key@ == "connect-timeout"@ ==> (match crate::codec::spec_parse_u64(value@) {
            Some(n) => if n >= 1 {
                r == Ok::<GlobalConfig, String>(GlobalConfig { connect_timeout_ms: n, ..*g })
            } else {
                r is Err
            },
            None => r is Err,
        }),
        key@ != "lsof-recheck"@ && key@ != "auto-failback"@ && key@ != "check-interval"@ && key@
            != "connect-timeout"@ ==> r is Err,
{
    proof {
        reveal_strlit("lsof-recheck");
        reveal_strlit("auto-failback");
        reveal_strlit("check-interval");
        reveal_strlit("connect-timeout");
        assert("lsof-recheck"@.len() != "auto-failback"@.len());
        assert("lsof-recheck"@.len() != "check-interval"@.len());
        assert("lsof-recheck"@.len() != "connect-timeout"@.len());
        assert("auto-failback"@.len() != "check-interval"@.len());
        assert("auto-failback"@.len() != "connect-timeout"@.len());
        assert("check-interval"@.len() != "connect-timeout"@.len());
    }
    let mut out = GlobalConfig {
        shares_root: g.shares_root.clone(),
        check_interval_secs: g.check_interval_secs,
        auto_failback: g.auto_failback,
        auto_failback_stable_secs: g.auto_failback_stable_secs,
        connect_timeout_ms: g.connect_timeout_ms,
        lsof_recheck: g.lsof_recheck,
    };
    if crate::strings::str_eq(key, "lsof-recheck") {
        match parse_on_off(value) {
            Ok(b) => {
                out.lsof_recheck = b;
                Ok(out)
            },
            Err(e) => Err(e),
        }
    } else if crate::strings::str_eq(key, "auto-failback") {
        match parse_on_off(value) {
            Ok(b) => {
                out.auto_failback = b;
                Ok(out)
            },
            Err(e) => Err(e),
        }
    } else if crate::strings::str_eq(key, "check-interval") {
        match crate::codec::parse_u64_text(value) {
            Some(n) => {
                if n == 0 {
                    let mut msg = "check-interval must be >= 1".to_owned();
                    return Err(msg);
                }
                out.check_interval_secs = n;
                Ok(out)
            },
            None => {
                let mut msg = "invalid number: ".to_owned();
                msg.append(value);
                Err(msg)
            },
        }
    } else if crate::strings::str_eq(key, "connect-timeout") {
        match crate::codec::parse_u64_text(value) {
            Some(n) => {
                if n == 0 {
                    let mut msg = "connect-timeout must be >= 1".to_owned();
                    return Err(msg);
                }
                out.connect_timeout_ms = n;
                Ok(out)
            },
            None => {
                let mut msg = "invalid number: ".to_owned();
                msg.append(value);
                Err(msg)
            },
        }
    } else {
        let mut msg = "unknown config key '".to_owned();
        msg.append(key);
        msg.append("'. valid keys: lsof-recheck, auto-failback, check-interval, connect-timeout");
        Err(msg)
    }
}

} // verus!
