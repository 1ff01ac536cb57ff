//! The configuration file codec: rendering a configuration to its TOML text
//! and reading that text back. The file has a fixed shape — a `[global]`
//! table, then one `[[shares]]` block per share, then one `[[aliases]]`
//! block per alias — and the round trip is proved: loading a saved
//! configuration yields the configuration that was saved, for every
//! configuration whose strings contain no newline.

use vstd::prelude::*;

use crate::config::{AliasConfig, Config, GlobalConfig, ShareConfig};
use crate::strings::{dec_str, spec_lines, spec_strip_cr};

verus! {

/// What a configuration says, with strings as character sequences: the view
/// under which the round trip is stated.
pub struct ShareModel {
    pub name: Seq<char>,
    pub username: Seq<char>,
    pub thunderbolt_host: Seq<char>,
    pub fallback_host: Seq<char>,
    pub share_name: Seq<char>,
}

pub struct AliasModel {
    pub name: Seq<char>,
    pub path: Seq<char>,
    pub share: Seq<char>,
    pub target_subpath: Seq<char>,
}

pub struct ConfigModel {
    pub shares_root: Seq<char>,
    pub check_interval_secs: u64,
    pub auto_failback: bool,
    pub auto_failback_stable_secs: u64,
    pub connect_timeout_ms: u64,
    pub lsof_recheck: bool,
    pub shares: Seq<ShareModel>,
    pub aliases: Seq<AliasModel>,
}

pub open spec fn share_model(s: ShareConfig) -> ShareModel {
    ShareModel {
        name: s.name@,
        username: s.username@,
        thunderbolt_host: s.thunderbolt_host@,
        fallback_host: s.fallback_host@,
        share_name: s.share_name@,
    }
}

pub open spec fn alias_model(a: AliasConfig) -> AliasModel {
    AliasModel {
        name: a.name@,
        path: a.path@,
        share: a.share@,
        target_subpath: a.target_subpath@,
    }
}

pub open spec fn config_model(c: Config) -> ConfigModel {
    ConfigModel {
        shares_root: c.global.shares_root@,
        check_interval_secs: c.global.check_interval_secs,
        auto_failback: c.global.auto_failback,
        auto_failback_stable_secs: c.global.auto_failback_stable_secs,
        connect_timeout_ms: c.global.connect_timeout_ms,
        lsof_recheck: c.global.lsof_recheck,
        shares: c.shares@.map_values(|s: ShareConfig| share_model(s)),
        aliases: c.aliases@.map_values(|a: AliasConfig| alias_model(a)),
    }
}

/// A string that can stand in the file: it holds no newline, so it stays on
/// its line.
pub open spec fn plain_str(s: Seq<char>) -> bool {
    crate::strings::no_newline(s)
}

// ---------------------------------------------------------------------------
// Lines of the rendered file
// ---------------------------------------------------------------------------

/// How one character of a value stands inside the quotes: a backslash or a
/// newline is written as a two-character escape, anything else as itself, so
/// every value stays on its line and reads back exactly.
pub open spec fn spec_escape_char(c: char) -> Seq<char> {
    if c == '\\' {
        seq!['\\', '\\']
    } else if c == '\n' {
        seq!['\\', 'n']
    } else {
        seq![c]
    }
}

/// A value as it stands inside the quotes.
pub open spec fn spec_escape(s: Seq<char>) -> Seq<char>
    decreases s.len(),
{
    if s.len() == 0 {
        Seq::empty()
    } else {
        spec_escape_char(s[0]) + spec_escape(s.drop_first())
    }
}

/// The value a quoted text stands for, when every escape in it is well
/// formed.
pub open spec fn spec_unescape(s: Seq<char>) -> Option<Seq<char>>
    decreases s.len(),
{
    if s.len() == 0 {
        Some(Seq::empty())
    } else if s[0] == '\\' {
        if s.len() >= 2 {
            let decoded = if s[1] == '\\' {
                Some('\\')
            } else if s[1] == 'n' {
                Some('\n')
            } else {
                None
            };
            match (decoded, spec_unescape(s.subrange(2, s.len() as int))) {
                (Some(c), Some(rest)) => Some(seq![c] + rest),
                _ => None,
            }
        } else {
            None
        }
    } else {
        match spec_unescape(s.drop_first()) {
            Some(rest) => Some(seq![s[0]] + rest),
            None => None,
        }
    }
}

/// A quoted string assignment: `key = "value"`, with the value escaped.
pub open spec fn kv_str(key: Seq<char>, v: Seq<char>) -> Seq<char> {
    key + " = \""@ + spec_escape(v) + "\""@
}

/// A number assignment: `key = 42`.
pub open spec fn kv_num(key: Seq<char>, n: u64) -> Seq<char> {
    key + " = "@ + dec_str(n as nat)
}

/// A boolean assignment: `key = true`.
pub open spec fn kv_bool(key: Seq<char>, b: bool) -> Seq<char> {
    key + " = "@ + (if b {
        "true"@
    } else {
        "false"@
    })
}

pub open spec fn spec_share_lines(s: ShareModel) -> Seq<Seq<char>> {
    seq![
        "[[shares]]"@,
        kv_str("name"@, s.name),
        kv_str("username"@, s.username),
        kv_str("thunderbolt_host"@, s.thunderbolt_host),
        kv_str("fallback_host"@, s.fallback_host),
        kv_str("share_name"@, s.share_name),
    ]
}

pub open spec fn spec_alias_lines(a: AliasModel) -> Seq<Seq<char>> {
    seq![
        "[[aliases]]"@,
        kv_str("name"@, a.name),
        kv_str("path"@, a.path),
        kv_str("share"@, a.share),
        kv_str("target_subpath"@, a.target_subpath),
    ]
}

pub open spec fn spec_shares_lines(shares: Seq<ShareModel>) -> Seq<Seq<char>>
    decreases shares.len(),
{
    if shares.len() == 0 {
        Seq::empty()
    } else {
        spec_share_lines(shares[0]) + spec_shares_lines(shares.drop_first())
    }
}

pub open spec fn spec_aliases_lines(aliases: Seq<AliasModel>) -> Seq<Seq<char>>
    decreases aliases.len(),
{
    if aliases.len() == 0 {
        Seq::empty()
    } else {
        spec_alias_lines(aliases[0]) + spec_aliases_lines(aliases.drop_first())
    }
}

pub open spec fn spec_global_lines(m: ConfigModel) -> Seq<Seq<char>> {
    seq![
        "[global]"@,
        kv_str("shares_root"@, m.shares_root),
        kv_num("check_interval_secs"@, m.check_interval_secs),
        kv_bool("auto_failback"@, m.auto_failback),
        kv_num("auto_failback_stable_secs"@, m.auto_failback_stable_secs),
        kv_num("connect_timeout_ms"@, m.connect_timeout_ms),
        kv_bool("lsof_recheck"@, m.lsof_recheck),
    ]
}

pub open spec fn spec_config_lines(m: ConfigModel) -> Seq<Seq<char>> {
    spec_global_lines(m) + spec_shares_lines(m.shares) + spec_aliases_lines(m.aliases)
}

/// Lines joined with single newlines, without a trailing newline.
pub open spec fn join_nl(ls: Seq<Seq<char>>) -> Seq<char>
    decreases ls.len(),
{
    if ls.len() == 0 {
        Seq::empty()
    } else if ls.len() == 1 {
        ls[0]
    } else {
        ls[0] + seq!['\n'] + join_nl(ls.drop_first())
    }
}

/// The saved text of a configuration.
pub open spec fn spec_save_config(m: ConfigModel) -> Seq<char> {
    join_nl(spec_config_lines(m))
}

// ---------------------------------------------------------------------------
// Parsing
// ---------------------------------------------------------------------------

/// The value of a quoted string assignment for the given key, when the line
/// has that shape and the quoted text unescapes.
pub open spec fn parse_kv_str(line: Seq<char>, key: Seq<char>) -> Option<Seq<char>> {
    let prefix = key + " = \""@;
    if line.len() >= prefix.len() + 1 && line.subrange(0, prefix.len() as int) == prefix
        && line.last() == '"' {
        spec_unescape(line.subrange(prefix.len() as int, line.len() - 1))
    } else {
        None
    }
}

/// The numeric value of a decimal digit, when the character is one.
pub open spec fn spec_digit_val(c: char) -> Option<nat> {
    let u = c as u32;
    if 48 <= u && u <= 57 {
        Some((u - 48) as nat)
    } else {
        None
    }
}

/// The value of a decimal digit string, most significant digit first; empty
/// strings read as zero here and are rejected by the callers.
pub open spec fn spec_dec_val(s: Seq<char>) -> Option<nat>
    decreases s.len(),
{
    if s.len() == 0 {
        Some(0)
    } else {
        match (spec_dec_val(s.drop_last()), spec_digit_val(s.last())) {
            (Some(v), Some(d)) => Some(v * 10 + d),
            _ => None,
        }
    }
}

/// A decimal numeral read as a `u64`: at least one digit, digits only, and
/// a value that fits.
pub open spec fn spec_parse_u64(s: Seq<char>) -> Option<u64> {
    if s.len() == 0 {
        None
    } else {
        match spec_dec_val(s) {
            Some(v) => if v <= u64::MAX {
                Some(v as u64)
            } else {
                None
            },
            None => None,
        }
    }
}

/// The value of a number assignment for the given key.
pub open spec fn parse_kv_num(line: Seq<char>, key: Seq<char>) -> Option<u64> {
    let prefix = key + " = "@;
    if line.len() > prefix.len() && line.subrange(0, prefix.len() as int) == prefix {
        match spec_dec_val(line.subrange(prefix.len() as int, line.len() as int)) {
            Some(v) => if v <= u64::MAX {
                Some(v as u64)
            } else {
                None
            },
            None => None,
        }
    } else {
        None
    }
}

/// The value of a boolean assignment for the given key.
pub open spec fn parse_kv_bool(line: Seq<char>, key: Seq<char>) -> Option<bool> {
    let prefix = key + " = "@;
    if line.len() > prefix.len() && line.subrange(0, prefix.len() as int) == prefix {
        let rest = line.subrange(prefix.len() as int, line.len() as int);
        if rest == "true"@ {
            Some(true)
        } else if rest == "false"@ {
            Some(false)
        } else {
            None
        }
    } else {
        None
    }
}

/// The `[[shares]]` blocks at the front of the line list: the shares they
/// declare and the lines that follow them.
pub open spec fn spec_parse_shares(ls: Seq<Seq<char>>) -> Option<(Seq<ShareModel>, Seq<Seq<char>>)>
    decreases ls.len(),
{
    if ls.len() >= 6 && ls[0] == "[[shares]]"@ {
        match (
            parse_kv_str(ls[1], "name"@),
            parse_kv_str(ls[2], "username"@),
            parse_kv_str(ls[3], "thunderbolt_host"@),
            parse_kv_str(ls[4], "fallback_host"@),
            parse_kv_str(ls[5], "share_name"@),
        ) {
            (Some(name), Some(username), Some(tb), Some(fb), Some(share_name)) => {
                let s = ShareModel {
                    name,
                    username,
                    thunderbolt_host: tb,
                    fallback_host: fb,
                    share_name,
                };
                match spec_parse_shares(ls.subrange(6, ls.len() as int)) {
                    Some((rest, remaining)) => Some((seq![s] + rest, remaining)),
                    None => None,
                }
            },
            _ => None,
        }
    } else if ls.len() > 0 && ls[0] == "[[shares]]"@ {
        None
    } else {
        Some((Seq::empty(), ls))
    }
}

/// The `[[aliases]]` blocks at the front of the line list.
pub open spec fn spec_parse_aliases(ls: Seq<Seq<char>>) -> Option<
    (Seq<AliasModel>, Seq<Seq<char>>),
>
    decreases ls.len(),
{
    if ls.len() >= 5 && ls[0] == "[[aliases]]"@ {
        match (
            parse_kv_str(ls[1], "name"@),
            parse_kv_str(ls[2], "path"@),
            parse_kv_str(ls[3], "share"@),
            parse_kv_str(ls[4], "target_subpath"@),
        ) {
            (Some(name), Some(path), Some(share), Some(target_subpath)) => {
                let a = AliasModel { name, path, share, target_subpath };
                match spec_parse_aliases(ls.subrange(5, ls.len() as int)) {
                    Some((rest, remaining)) => Some((seq![a] + rest, remaining)),
                    None => None,
                }
            },
            _ => None,
        }
    } else if ls.len() > 0 && ls[0] == "[[aliases]]"@ {
        None
    } else {
        Some((Seq::empty(), ls))
    }
}

/// The configuration a line list declares, when it has exactly the shape the
/// renderer writes: the `[global]` table, then shares, then aliases, and
/// nothing else.
pub open spec fn spec_parse_config_lines(ls: Seq<Seq<char>>) -> Option<ConfigModel> {
    if ls.len() >= 7 && ls[0] == "[global]"@ {
        match (
            parse_kv_str(ls[1], "shares_root"@),
            parse_kv_num(ls[2], "check_interval_secs"@),
            parse_kv_bool(ls[3], "auto_failback"@),
            parse_kv_num(ls[4], "auto_failback_stable_secs"@),
            parse_kv_num(ls[5], "connect_timeout_ms"@),
            parse_kv_bool(ls[6], "lsof_recheck"@),
        ) {
            (Some(root), Some(ci), Some(af), Some(st), Some(ct), Some(lr)) => {
                match spec_parse_shares(ls.subrange(7, ls.len() as int)) {
                    Some((shares, rest)) => match spec_parse_aliases(rest) {
                        Some((aliases, remaining)) => if remaining.len() == 0 {
                            Some(
                                ConfigModel {
                                    shares_root: root,
                                    check_interval_secs: ci,
                                    auto_failback: af,
                                    auto_failback_stable_secs: st,
                                    connect_timeout_ms: ct,
                                    lsof_recheck: lr,
                                    shares,
                                    aliases,
                                },
                            )
                        } else {
                            None
                        },
                        None => None,
                    },
                    None => None,
                }
            },
            _ => None,
        }
    } else {
        None
    }
}

/// The configuration a text declares.
pub open spec fn spec_load_config(text: Seq<char>) -> Option<ConfigModel> {
    spec_parse_config_lines(spec_lines(text))
}

// ---------------------------------------------------------------------------
// Round trip
// ---------------------------------------------------------------------------

/// Unescaping an escaped value yields the value, for every value.
proof fn lemma_unescape_escape(s: Seq<char>)
    ensures
        spec_unescape(spec_escape(s)) == Some(s),
    decreases s.len(),
{
    if s.len() > 0 {
        let e = spec_escape(s);
        let rest = spec_escape(s.drop_first());
        lemma_unescape_escape(s.drop_first());
        if s[0] == '\\' {
            assert(e =~= seq!['\\', '\\'] + rest);
            assert(e.subrange(2, e.len() as int) =~= rest);
            assert(seq!['\\'] + s.drop_first() =~= s);
        } else if s[0] == '\n' {
            assert(e =~= seq!['\\', 'n'] + rest);
            assert(e.subrange(2, e.len() as int) =~= rest);
            assert(seq!['\n'] + s.drop_first() =~= s);
        } else {
            assert(e =~= seq![s[0]] + rest);
            assert(e.drop_first() =~= rest);
            assert(seq![s[0]] + s.drop_first() =~= s);
        }
    }
}

/// An escaped value holds no newline: the newline itself is encoded away and
/// the escapes use only backslashes and letters.
proof fn lemma_escape_chars(s: Seq<char>)
    ensures
        forall|j: int| 0 <= j < spec_escape(s).len() ==> #[trigger] spec_escape(s)[j] != '\n',
    decreases s.len(),
{
    if s.len() > 0 {
        lemma_escape_chars(s.drop_first());
        let head = spec_escape_char(s[0]);
        assert forall|j: int|
            0 <= j < spec_escape(s).len() implies #[trigger] spec_escape(s)[j] != '\n' by {
            if j < head.len() {
                assert(spec_escape(s)[j] == head[j]);
            } else {
                assert(spec_escape(s)[j] == spec_escape(s.drop_first())[j - head.len()]);
            }
        }
    }
}

/// Reading back a rendered string assignment yields the value, whatever
/// characters it holds.
proof fn lemma_kv_str_inverse(key: Seq<char>, v: Seq<char>)
    ensures
        parse_kv_str(kv_str(key, v), key) == Some(v),
{
    let prefix = key + " = \""@;
    let line = kv_str(key, v);
    reveal_strlit(" = \"");
    reveal_strlit("\"");
    assert(line =~= prefix + spec_escape(v) + "\""@);
    assert(line.len() == prefix.len() + spec_escape(v).len() + 1);
    assert(line.last() == '"');
    assert(line.subrange(0, prefix.len() as int) =~= prefix);
    assert(line.subrange(prefix.len() as int, line.len() - 1) =~= spec_escape(v));
    lemma_unescape_escape(v);
}

/// The value of a digit character is the digit.
proof fn lemma_digit_val(d: nat)
    requires
        d < 10,
    ensures
        spec_digit_val(crate::strings::digit_char(d)) == Some(d),
{
    let c = crate::strings::digit_char(d);
    assert(c == (0x30 + d) as u8 as char);
    assert(c as u32 == 0x30 + d);
    assert(spec_digit_val(c) == Some(d));
}

/// Reading back a decimal rendering yields the number.
proof fn lemma_dec_val_inverse(n: nat)
    ensures
        spec_dec_val(dec_str(n)) == Some(n),
    decreases n,
{
    if n < 10 {
        lemma_digit_val(n);
        let s = dec_str(n);
        assert(s =~= seq![crate::strings::digit_char(n)]);
        assert(s.drop_last() =~= Seq::<char>::empty());
        assert(spec_dec_val(s.drop_last()) == Some(0nat)) by {
            assert(s.drop_last().len() == 0);
        }
        assert(s.last() == crate::strings::digit_char(n));
        assert(spec_dec_val(s) == Some(0nat * 10 + n));
    } else {
        lemma_dec_val_inverse(n / 10);
        lemma_digit_val(n % 10);
        let s = dec_str(n);
        assert(s == dec_str(n / 10) + seq![crate::strings::digit_char(n % 10)]);
        assert(s.drop_last() =~= dec_str(n / 10));
        assert(s.last() == crate::strings::digit_char(n % 10));
        assert(spec_dec_val(s) == Some((n / 10) * 10 + n % 10));
        assert((n / 10) * 10 + n % 10 == n) by (nonlinear_arith);
    }
}

/// No decimal digit is a quote or a bracket, so a number line never parses
/// as anything else; more to the point here, the digits of a rendering are
/// digits.
proof fn lemma_kv_num_inverse(key: Seq<char>, n: u64)
    ensures
        parse_kv_num(kv_num(key, n), key) == Some(n),
{
    let prefix = key + " = "@;
    let line = kv_num(key, n);
    reveal_strlit(" = ");
    assert(line =~= prefix + dec_str(n as nat));
    assert(dec_str(n as nat).len() > 0) by {
        lemma_dec_str_len(n as nat);
    }
    assert(line.subrange(0, prefix.len() as int) =~= prefix);
    assert(line.subrange(prefix.len() as int, line.len() as int) =~= dec_str(n as nat));
    lemma_dec_val_inverse(n as nat);
}

/// A decimal rendering is never empty.
proof fn lemma_dec_str_len(n: nat)
    ensures
        dec_str(n).len() > 0,
{
}

/// Reading back a rendered boolean assignment yields the value.
proof fn lemma_kv_bool_inverse(key: Seq<char>, b: bool)
    ensures
        parse_kv_bool(kv_bool(key, b), key) == Some(b),
{
    let prefix = key + " = "@;
    let line = kv_bool(key, b);
    reveal_strlit(" = ");
    reveal_strlit("true");
    reveal_strlit("false");
    if b {
        assert(line =~= prefix + "true"@);
        assert(line.subrange(0, prefix.len() as int) =~= prefix);
        assert(line.subrange(prefix.len() as int, line.len() as int) =~= "true"@);
        assert("true"@ != "false"@);
    } else {
        assert(line =~= prefix + "false"@);
        assert(line.subrange(0, prefix.len() as int) =~= prefix);
        assert(line.subrange(prefix.len() as int, line.len() as int) =~= "false"@);
        assert("false"@ != "true"@);
    }
}

// ---------------------------------------------------------------------------
// The rendered lines stay on their lines
// ---------------------------------------------------------------------------

/// Every fixed piece of text the renderer writes is free of newlines; this
/// discharges, character by character, what the join/split argument needs.
proof fn lemma_literals_plain()
    ensures
        plain_str("[global]"@),
        plain_str("[[shares]]"@),
        plain_str("[[aliases]]"@),
        plain_str("shares_root"@),
        plain_str("check_interval_secs"@),
        plain_str("auto_failback"@),
        plain_str("auto_failback_stable_secs"@),
        plain_str("connect_timeout_ms"@),
        plain_str("lsof_recheck"@),
        plain_str("name"@),
        plain_str("username"@),
        plain_str("thunderbolt_host"@),
        plain_str("fallback_host"@),
        plain_str("share_name"@),
        plain_str("path"@),
        plain_str("share"@),
        plain_str("target_subpath"@),
        plain_str(" = \""@),
        plain_str(" = "@),
        plain_str("\""@),
        plain_str("true"@),
        plain_str("false"@),
{
    reveal_strlit("[global]");
    assert forall|j: int| 0 <= j < "[global]"@.len() implies "[global]"@[j] != '\n' by {
        if j == 0 {
        } else if j == 1 {
        } else if j == 2 {
        } else if j == 3 {
        } else if j == 4 {
        } else if j == 5 {
        } else if j == 6 {
        } else {
        }
    }
    reveal_strlit("[[shares]]");
    assert forall|j: int| 0 <= j < "[[shares]]"@.len() implies "[[shares]]"@[j] != '\n' by {
        if j == 0 {
        } else if j == 1 {
        } else if j == 2 {
        } else if j == 3 {
        } else if j == 4 {
        } else if j == 5 {
        } else if j == 6 {
        } else if j == 7 {
        } else if j == 8 {
        } else {
        }
    }
    reveal_strlit("[[aliases]]");
    assert forall|j: int| 0 <= j < "[[aliases]]"@.len() implies "[[aliases]]"@[j] != '\n' by {
        if j == 0 {
        } else if j == 1 {
        } else if j == 2 {
        } else if j == 3 {
        } else if j == 4 {
        } else if j == 5 {
        } else if j == 6 {
        } else if j == 7 {
        } else if j == 8 {
        } else if j == 9 {
        } else {
        }
    }
    reveal_strlit("shares_root");
    assert forall|j: int| 0 <= j < "shares_root"@.len() implies "shares_root"@[j] != '\n' by {
        if j == 0 {
        } else if j == 1 {
        } else if j == 2 {
        } else if j == 3 {
        } else if j == 4 {
        } else if j == 5 {
        } else if j == 6 {
        } else if j == 7 {
        } else if j == 8 {
        } else if j == 9 {
        } else {
        }
    }
    reveal_strlit("check_interval_secs");
    assert forall|j: int| 0 <= j < "check_interval_secs"@.len() implies "check_interval_secs"@[j] != '\n' by {
        if j == 0 {
        } else if j == 1 {
        } else if j == 2 {
        } else if j == 3 {
        } else if j == 4 {
        } else if j == 5 {
        } else if j == 6 {
        } else if j == 7 {
        } else if j == 8 {
        } else if j == 9 {
        } else if j == 10 {
        } else if j == 11 {
        } else if j == 12 {
        } else if j == 13 {
        } else if j == 14 {
        } else if j == 15 {
        } else if j == 16 {
        } else if j == 17 {
        } else {
        }
    }
    reveal_strlit("auto_failback");
    assert forall|j: int| 0 <= j < "auto_failback"@.len() implies "auto_failback"@[j] != '\n' by {
        if j == 0 {
        } else if j == 1 {
        } else if j == 2 {
        } else if j == 3 {
        } else if j == 4 {
        } else if j == 5 {
        } else if j == 6 {
        } else if j == 7 {
        } else if j == 8 {
        } else if j == 9 {
        } else if j == 10 {
        } else if j == 11 {
        } else {
        }
    }
    reveal_strlit("auto_failback_stable_secs");
    assert forall|j: int| 0 <= j < "auto_failback_stable_secs"@.len() implies "auto_failback_stable_secs"@[j] != '\n' by {
        if j == 0 {
        } else if j == 1 {
        } else if j == 2 {
        } else if j == 3 {
        } else if j == 4 {
        } else if j == 5 {
        } else if j == 6 {
        } else if j == 7 {
        } else if j == 8 {
        } else if j == 9 {
        } else if j == 10 {
        } else if j == 11 {
        } else if j == 12 {
        } else if j == 13 {
        } else if j == 14 {
        } else if j == 15 {
        } else if j == 16 {
        } else if j == 17 {
        } else if j == 18 {
        } else if j == 19 {
        } else if j == 20 {
        } else if j == 21 {
        } else if j == 22 {
        } else if j == 23 {
        } else {
        }
    }
    reveal_strlit("connect_timeout_ms");
    assert forall|j: int| 0 <= j < "connect_timeout_ms"@.len() implies "connect_timeout_ms"@[j] != '\n' by {
        if j == 0 {
        } else if j == 1 {
        } else if j == 2 {
        } else if j == 3 {
        } else if j == 4 {
        } else if j == 5 {
        } else if j == 6 {
        } else if j == 7 {
        } else if j == 8 {
        } else if j == 9 {
        } else if j == 10 {
        } else if j == 11 {
        } else if j == 12 {
        } else if j == 13 {
        } else if j == 14 {
        } else if j == 15 {
        } else if j == 16 {
        } else {
        }
    }
    reveal_strlit("lsof_recheck");
    assert forall|j: int| 0 <= j < "lsof_recheck"@.len() implies "lsof_recheck"@[j] != '\n' by {
        if j == 0 {
        } else if j == 1 {
        } else if j == 2 {
        } else if j == 3 {
        } else if j == 4 {
        } else if j == 5 {
        } else if j == 6 {
        } else if j == 7 {
        } else if j == 8 {
        } else if j == 9 {
        } else if j == 10 {
        } else {
        }
    }
    reveal_strlit("name");
    assert forall|j: int| 0 <= j < "name"@.len() implies "name"@[j] != '\n' by {
        if j == 0 {
        } else if j == 1 {
        } else if j == 2 {
        } else {
        }
    }
    reveal_strlit("username");
    assert forall|j: int| 0 <= j < "username"@.len() implies "username"@[j] != '\n' by {
        if j == 0 {
        } else if j == 1 {
        } else if j == 2 {
        } else if j == 3 {
        } else if j == 4 {
        } else if j == 5 {
        } else if j == 6 {
        } else {
        }
    }
    reveal_strlit("thunderbolt_host");
    assert forall|j: int| 0 <= j < "thunderbolt_host"@.len() implies "thunderbolt_host"@[j] != '\n' by {
        if j == 0 {
        } else if j == 1 {
        } else if j == 2 {
        } else if j == 3 {
        } else if j == 4 {
        } else if j == 5 {
        } else if j == 6 {
        } else if j == 7 {
        } else if j == 8 {
        } else if j == 9 {
        } else if j == 10 {
        } else if j == 11 {
        } else if j == 12 {
        } else if j == 13 {
        } else if j == 14 {
        } else {
        }
    }
    reveal_strlit("fallback_host");
    assert forall|j: int| 0 <= j < "fallback_host"@.len() implies "fallback_host"@[j] != '\n' by {
        if j == 0 {
        } else if j == 1 {
        } else if j == 2 {
        } else if j == 3 {
        } else if j == 4 {
        } else if j == 5 {
        } else if j == 6 {
        } else if j == 7 {
        } else if j == 8 {
        } else if j == 9 {
        } else if j == 10 {
        } else if j == 11 {
        } else {
        }
    }
    reveal_strlit("share_name");
    assert forall|j: int| 0 <= j < "share_name"@.len() implies "share_name"@[j] != '\n' by {
        if j == 0 {
        } else if j == 1 {
        } else if j == 2 {
        } else if j == 3 {
        } else if j == 4 {
        } else if j == 5 {
        } else if j == 6 {
        } else if j == 7 {
        } else if j == 8 {
        } else {
        }
    }
    reveal_strlit("path");
    assert forall|j: int| 0 <= j < "path"@.len() implies "path"@[j] != '\n' by {
        if j == 0 {
        } else if j == 1 {
        } else if j == 2 {
        } else {
        }
    }
    reveal_strlit("share");
    assert forall|j: int| 0 <= j < "share"@.len() implies "share"@[j] != '\n' by {
        if j == 0 {
        } else if j == 1 {
        } else if j == 2 {
        } else if j == 3 {
        } else {
        }
    }
    reveal_strlit("target_subpath");
    assert forall|j: int| 0 <= j < "target_subpath"@.len() implies "target_subpath"@[j] != '\n' by {
        if j == 0 {
        } else if j == 1 {
        } else if j == 2 {
        } else if j == 3 {
        } else if j == 4 {
        } else if j == 5 {
        } else if j == 6 {
        } else if j == 7 {
        } else if j == 8 {
        } else if j == 9 {
        } else if j == 10 {
        } else if j == 11 {
        } else if j == 12 {
        } else {
        }
    }
    reveal_strlit(" = \"");
    assert forall|j: int| 0 <= j < " = \""@.len() implies " = \""@[j] != '\n' by {
        if j == 0 {
        } else if j == 1 {
        } else if j == 2 {
        } else {
        }
    }
    reveal_strlit(" = ");
    assert forall|j: int| 0 <= j < " = "@.len() implies " = "@[j] != '\n' by {
        if j == 0 {
        } else if j == 1 {
        } else {
        }
    }
    reveal_strlit("\"");
    assert forall|j: int| 0 <= j < "\""@.len() implies "\""@[j] != '\n' by {
        {
        }
    }
    reveal_strlit("true");
    assert forall|j: int| 0 <= j < "true"@.len() implies "true"@[j] != '\n' by {
        if j == 0 {
        } else if j == 1 {
        } else if j == 2 {
        } else {
        }
    }
    reveal_strlit("false");
    assert forall|j: int| 0 <= j < "false"@.len() implies "false"@[j] != '\n' by {
        if j == 0 {
        } else if j == 1 {
        } else if j == 2 {
        } else if j == 3 {
        } else {
        }
    }
}

/// Newline-freeness passes through concatenation.
proof fn lemma_plain_concat(a: Seq<char>, b: Seq<char>)
    requires
        plain_str(a),
        plain_str(b),
    ensures
        plain_str(a + b),
{
    assert forall|j: int| 0 <= j < (a + b).len() implies (a + b)[j] != '\n' by {
        if j < a.len() {
            assert((a + b)[j] == a[j]);
        } else {
            assert((a + b)[j] == b[j - a.len()]);
        }
    }
}

/// Every character of a decimal rendering is a digit.
proof fn lemma_dec_str_digits(n: nat)
    ensures
        forall|j: int|
            0 <= j < dec_str(n).len() ==> 48 <= (#[trigger] dec_str(n)[j]) as u32 <= 57,
    decreases n,
{
    if n < 10 {
    } else {
        lemma_dec_str_digits(n / 10);
        assert forall|j: int| 0 <= j < dec_str(n).len() implies 48 <= (#[trigger] dec_str(
            n,
        )[j]) as u32 <= 57 by {
            if j < dec_str(n / 10).len() {
                assert(dec_str(n)[j] == dec_str(n / 10)[j]);
            } else {
                assert(dec_str(n)[j] == crate::strings::digit_char(n % 10));
            }
        }
    }
}

proof fn lemma_dec_str_plain(n: nat)
    ensures
        plain_str(dec_str(n)),
        dec_str(n).last() != '\r',
        dec_str(n).len() > 0,
{
    lemma_dec_str_digits(n);
    assert forall|j: int| 0 <= j < dec_str(n).len() implies dec_str(n)[j] != '\n' by {
        assert(48 <= dec_str(n)[j] as u32 <= 57);
    }
    assert(48 <= dec_str(n).last() as u32 <= 57);
}

/// What the join/split argument needs of every line: not empty, no newline
/// inside, no carriage return at the end.
pub open spec fn line_ok(l: Seq<char>) -> bool {
    l.len() > 0 && plain_str(l) && l.last() != '\r'
}

proof fn lemma_kv_str_line_ok(key: Seq<char>, v: Seq<char>)
    requires
        plain_str(key),
    ensures
        line_ok(kv_str(key, v)),
{
    lemma_literals_plain();
    lemma_escape_chars(v);
    assert(plain_str(spec_escape(v)));
    lemma_plain_concat(key, " = \""@);
    lemma_plain_concat(key + " = \""@, spec_escape(v));
    lemma_plain_concat(key + " = \""@ + spec_escape(v), "\""@);
    reveal_strlit("\"");
    assert(kv_str(key, v).last() == '"');
}

proof fn lemma_kv_num_line_ok(key: Seq<char>, n: u64)
    requires
        plain_str(key),
    ensures
        line_ok(kv_num(key, n)),
{
    lemma_literals_plain();
    lemma_dec_str_plain(n as nat);
    lemma_plain_concat(key, " = "@);
    lemma_plain_concat(key + " = "@, dec_str(n as nat));
    assert(kv_num(key, n).last() == dec_str(n as nat).last());
}

proof fn lemma_kv_bool_line_ok(key: Seq<char>, b: bool)
    requires
        plain_str(key),
    ensures
        line_ok(kv_bool(key, b)),
{
    lemma_literals_plain();
    reveal_strlit("true");
    reveal_strlit("false");
    if b {
        lemma_plain_concat(key, " = "@);
        lemma_plain_concat(key + " = "@, "true"@);
        assert(kv_bool(key, b).last() == "true"@[3]);
    } else {
        lemma_plain_concat(key, " = "@);
        lemma_plain_concat(key + " = "@, "false"@);
        assert(kv_bool(key, b).last() == "false"@[4]);
    }
}

/// Every line the renderer emits is a good line, whatever the
/// configuration's strings hold: the escaping keeps every value on its line.
proof fn lemma_config_lines_ok(m: ConfigModel)
    ensures
        forall|i: int| 0 <= i < spec_config_lines(m).len() ==> line_ok(#[trigger] spec_config_lines(m)[i]),
        spec_config_lines(m).len() >= 7,
{
    lemma_literals_plain();
    reveal_strlit("[global]");
    reveal_strlit("[[shares]]");
    reveal_strlit("[[aliases]]");
    let g = spec_global_lines(m);
    assert(line_ok(g[0])) by {
        assert("[global]"@.last() == ']');
    }
    lemma_kv_str_line_ok("shares_root"@, m.shares_root);
    lemma_kv_num_line_ok("check_interval_secs"@, m.check_interval_secs);
    lemma_kv_bool_line_ok("auto_failback"@, m.auto_failback);
    lemma_kv_num_line_ok("auto_failback_stable_secs"@, m.auto_failback_stable_secs);
    lemma_kv_num_line_ok("connect_timeout_ms"@, m.connect_timeout_ms);
    lemma_kv_bool_line_ok("lsof_recheck"@, m.lsof_recheck);
    lemma_shares_lines_ok(m.shares);
    lemma_aliases_lines_ok(m.aliases);
    let sl = spec_shares_lines(m.shares);
    let al = spec_aliases_lines(m.aliases);
    assert forall|i: int| 0 <= i < spec_config_lines(m).len() implies line_ok(
        #[trigger] spec_config_lines(m)[i],
    ) by {
        if i < 7 {
            assert(spec_config_lines(m)[i] == g[i]);
        } else if i < 7 + sl.len() {
            assert(spec_config_lines(m)[i] == sl[i - 7]);
        } else {
            assert(spec_config_lines(m)[i] == al[i - 7 - sl.len()]);
        }
    }
}

proof fn lemma_shares_lines_ok(shares: Seq<ShareModel>)
    ensures
        forall|i: int|
            0 <= i < spec_shares_lines(shares).len() ==> line_ok(
                #[trigger] spec_shares_lines(shares)[i],
            ),
        spec_shares_lines(shares).len() == 6 * shares.len(),
    decreases shares.len(),
{
    lemma_literals_plain();
    reveal_strlit("[[shares]]");
    if shares.len() > 0 {
        let s = shares[0];
        let block = spec_share_lines(s);
        assert(line_ok(block[0])) by {
            assert("[[shares]]"@.last() == ']');
        }
        lemma_kv_str_line_ok("name"@, s.name);
        lemma_kv_str_line_ok("username"@, s.username);
        lemma_kv_str_line_ok("thunderbolt_host"@, s.thunderbolt_host);
        lemma_kv_str_line_ok("fallback_host"@, s.fallback_host);
        lemma_kv_str_line_ok("share_name"@, s.share_name);
        lemma_shares_lines_ok(shares.drop_first());
        let rest = spec_shares_lines(shares.drop_first());
        assert forall|i: int| 0 <= i < spec_shares_lines(shares).len() implies line_ok(
            #[trigger] spec_shares_lines(shares)[i],
        ) by {
            if i < 6 {
                assert(spec_shares_lines(shares)[i] == block[i]);
            } else {
                assert(spec_shares_lines(shares)[i] == rest[i - 6]);
            }
        }
    }
}

proof fn lemma_aliases_lines_ok(aliases: Seq<AliasModel>)
    ensures
        forall|i: int|
            0 <= i < spec_aliases_lines(aliases).len() ==> line_ok(
                #[trigger] spec_aliases_lines(aliases)[i],
            ),
        spec_aliases_lines(aliases).len() == 5 * aliases.len(),
    decreases aliases.len(),
{
    lemma_literals_plain();
    reveal_strlit("[[aliases]]");
    if aliases.len() > 0 {
        let a = aliases[0];
        let block = spec_alias_lines(a);
        assert(line_ok(block[0])) by {
            assert("[[aliases]]"@.last() == ']');
        }
        lemma_kv_str_line_ok("name"@, a.name);
        lemma_kv_str_line_ok("path"@, a.path);
        lemma_kv_str_line_ok("share"@, a.share);
        lemma_kv_str_line_ok("target_subpath"@, a.target_subpath);
        lemma_aliases_lines_ok(aliases.drop_first());
        let rest = spec_aliases_lines(aliases.drop_first());
        assert forall|i: int| 0 <= i < spec_aliases_lines(aliases).len() implies line_ok(
            #[trigger] spec_aliases_lines(aliases)[i],
        ) by {
            if i < 5 {
                assert(spec_aliases_lines(aliases)[i] == block[i]);
            } else {
                assert(spec_aliases_lines(aliases)[i] == rest[i - 5]);
            }
        }
    }
}

// ---------------------------------------------------------------------------
// Splitting the joined text recovers the lines
// ---------------------------------------------------------------------------

proof fn lemma_split_join(ls: Seq<Seq<char>>)
    requires
        ls.len() > 0,
        forall|i: int| 0 <= i < ls.len() ==> plain_str(#[trigger] ls[i]),
    ensures
        crate::strings::spec_split(join_nl(ls), seq!['\n']) == ls,
    decreases ls.len(),
{
    let seps = seq!['\n'];
    if ls.len() == 1 {
        assert forall|j: int| 0 <= j < ls[0].len() implies !seps.contains(#[trigger] ls[0][j]) by {
            assert(ls[0][j] != '\n');
        }
        crate::strings::lemma_first_sep_none(ls[0], seps);
        assert(crate::strings::spec_split(join_nl(ls), seps) =~= ls);
    } else {
        let text = join_nl(ls);
        let k = ls[0].len() as int;
        assert(text == ls[0] + seq!['\n'] + join_nl(ls.drop_first()));
        assert forall|j: int| 0 <= j < k implies !seps.contains(#[trigger] text[j]) by {
            assert(text[j] == ls[0][j]);
        }
        assert(text[k] == '\n');
        assert(seps.contains(text[k]));
        crate::strings::lemma_first_sep_chunk(text, seps, k);
        assert(text.subrange(0, k) =~= ls[0]);
        assert(text.subrange(k + 1, text.len() as int) =~= join_nl(ls.drop_first()));
        assert forall|i: int| 0 <= i < ls.drop_first().len() implies plain_str(
            #[trigger] ls.drop_first()[i],
        ) by {
            assert(ls.drop_first()[i] == ls[i + 1]);
        }
        lemma_split_join(ls.drop_first());
        assert(crate::strings::spec_split(text, seps) =~= ls);
    }
}

/// Reading the joined text back line by line recovers exactly the lines.
proof fn lemma_lines_join(ls: Seq<Seq<char>>)
    requires
        ls.len() > 0,
        forall|i: int| 0 <= i < ls.len() ==> line_ok(#[trigger] ls[i]),
    ensures
        spec_lines(join_nl(ls)) == ls,
{
    let text = join_nl(ls);
    assert(text.len() > 0) by {
        if ls.len() == 1 {
            assert(text == ls[0]);
        } else {
            assert(text == ls[0] + seq!['\n'] + join_nl(ls.drop_first()));
            assert(text.len() >= ls[0].len());
        }
    }
    lemma_split_join(ls);
    let parts = crate::strings::spec_split(text, seq!['\n']);
    reveal_strlit("\n");
    assert("\n"@ =~= seq!['\n']);
    assert(parts == ls);
    assert(parts.last().len() > 0);
    assert forall|i: int| 0 <= i < ls.len() implies #[trigger] spec_strip_cr(ls[i]) == ls[i] by {
        assert(ls[i].last() != '\r');
    }
    assert(ls.map_values(|l: Seq<char>| spec_strip_cr(l)) =~= ls);
}

// ---------------------------------------------------------------------------
// Parsing the rendered lines recovers the configuration
// ---------------------------------------------------------------------------

proof fn lemma_parse_shares_inverse(shares: Seq<ShareModel>, tail: Seq<Seq<char>>)
    requires
        tail.len() == 0 || tail[0] != "[[shares]]"@,
    ensures
        spec_parse_shares(spec_shares_lines(shares) + tail) == Some((shares, tail)),
    decreases shares.len(),
{
    reveal_strlit("[[shares]]");
    let ls = spec_shares_lines(shares) + tail;
    if shares.len() == 0 {
        assert(ls =~= tail);
        assert(spec_parse_shares(ls) == Some((Seq::<ShareModel>::empty(), tail)));
        assert(Seq::<ShareModel>::empty() =~= shares);
    } else {
        let s = shares[0];
        let block = spec_share_lines(s);
        let rest_lines = spec_shares_lines(shares.drop_first());
        assert(ls.len() >= 6);
        assert(ls[0] == block[0]);
        assert(ls[1] == block[1] && ls[2] == block[2] && ls[3] == block[3] && ls[4] == block[4]
            && ls[5] == block[5]);
        lemma_kv_str_inverse("name"@, s.name);
        lemma_kv_str_inverse("username"@, s.username);
        lemma_kv_str_inverse("thunderbolt_host"@, s.thunderbolt_host);
        lemma_kv_str_inverse("fallback_host"@, s.fallback_host);
        lemma_kv_str_inverse("share_name"@, s.share_name);
        assert(ls.subrange(6, ls.len() as int) =~= rest_lines + tail);
        lemma_parse_shares_inverse(shares.drop_first(), tail);
        assert(seq![
            ShareModel {
                name: s.name,
                username: s.username,
                thunderbolt_host: s.thunderbolt_host,
                fallback_host: s.fallback_host,
                share_name: s.share_name,
            },
        ] + shares.drop_first() =~= shares);
    }
}

proof fn lemma_parse_aliases_inverse(aliases: Seq<AliasModel>, tail: Seq<Seq<char>>)
    requires
        tail.len() == 0 || tail[0] != "[[aliases]]"@,
    ensures
        spec_parse_aliases(spec_aliases_lines(aliases) + tail) == Some((aliases, tail)),
    decreases aliases.len(),
{
    reveal_strlit("[[aliases]]");
    let ls = spec_aliases_lines(aliases) + tail;
    if aliases.len() == 0 {
        assert(ls =~= tail);
        assert(spec_parse_aliases(ls) == Some((Seq::<AliasModel>::empty(), tail)));
        assert(Seq::<AliasModel>::empty() =~= aliases);
    } else {
        let a = aliases[0];
        let block = spec_alias_lines(a);
        let rest_lines = spec_aliases_lines(aliases.drop_first());
        assert(ls.len() >= 5);
        assert(ls[0] == block[0]);
        assert(ls[1] == block[1] && ls[2] == block[2] && ls[3] == block[3] && ls[4] == block[4]);
        lemma_kv_str_inverse("name"@, a.name);
        lemma_kv_str_inverse("path"@, a.path);
        lemma_kv_str_inverse("share"@, a.share);
        lemma_kv_str_inverse("target_subpath"@, a.target_subpath);
        assert(ls.subrange(5, ls.len() as int) =~= rest_lines + tail);
        lemma_parse_aliases_inverse(aliases.drop_first(), tail);
        assert(seq![
            AliasModel { name: a.name, path: a.path, share: a.share, target_subpath: a.target_subpath },
        ] + aliases.drop_first() =~= aliases);
    }
}

/// Round trip of the configuration file: loading a saved configuration
/// yields exactly the configuration that was saved, for every configuration
/// — the escaping carries any character a string field can hold.
pub proof fn lemma_save_load_config(m: ConfigModel)
    ensures
        spec_load_config(spec_save_config(m)) == Some(m),
{
    reveal_strlit("[global]");
    reveal_strlit("[[shares]]");
    reveal_strlit("[[aliases]]");
    let ls = spec_config_lines(m);
    let g = spec_global_lines(m);
    let sl = spec_shares_lines(m.shares);
    let al = spec_aliases_lines(m.aliases);
    lemma_config_lines_ok(m);
    lemma_lines_join(ls);
    assert(spec_lines(spec_save_config(m)) == ls);
    assert(ls[0] == g[0]);
    assert(ls[1] == g[1] && ls[2] == g[2] && ls[3] == g[3] && ls[4] == g[4] && ls[5] == g[5]
        && ls[6] == g[6]);
    lemma_kv_str_inverse("shares_root"@, m.shares_root);
    lemma_kv_num_inverse("check_interval_secs"@, m.check_interval_secs);
    lemma_kv_bool_inverse("auto_failback"@, m.auto_failback);
    lemma_kv_num_inverse("auto_failback_stable_secs"@, m.auto_failback_stable_secs);
    lemma_kv_num_inverse("connect_timeout_ms"@, m.connect_timeout_ms);
    lemma_kv_bool_inverse("lsof_recheck"@, m.lsof_recheck);
    assert(ls.subrange(7, ls.len() as int) =~= sl + al);
    lemma_aliases_lines_ok(m.aliases);
    if m.aliases.len() > 0 {
        assert(al[0] == spec_alias_lines(m.aliases[0])[0]);
        assert(al[0] == "[[aliases]]"@);
        assert("[[aliases]]"@.len() != "[[shares]]"@.len());
    }
    lemma_parse_shares_inverse(m.shares, al);
    lemma_parse_aliases_inverse(m.aliases, Seq::empty());
    assert(al + Seq::<Seq<char>>::empty() =~= al);
    assert(spec_parse_aliases(al) == Some((m.aliases, Seq::<Seq<char>>::empty())));
    let parsed = spec_parse_config_lines(ls);
    assert(parsed == Some(
        ConfigModel {
            shares_root: m.shares_root,
            check_interval_secs: m.check_interval_secs,
            auto_failback: m.auto_failback,
            auto_failback_stable_secs: m.auto_failback_stable_secs,
            connect_timeout_ms: m.connect_timeout_ms,
            lsof_recheck: m.lsof_recheck,
            shares: m.shares,
            aliases: m.aliases,
        },
    ));
}

// ---------------------------------------------------------------------------
// Executable rendering
// ---------------------------------------------------------------------------

fn kv_str_line(key: &str, v: &str) -> (r: String)
    ensures
        r@ == kv_str(key@, v@),
{
    let mut s = key.to_owned();
    s.append(" = \"");
    s.append(escape_value(v).as_str());
    s.append("\"");
    proof {
        assert(s@ =~= kv_str(key@, v@));
    }
    s
}

/// Escaping one more character appends its encoding.
proof fn lemma_escape_snoc(s: Seq<char>, c: char)
    ensures
        spec_escape(s.push(c)) == spec_escape(s) + spec_escape_char(c),
    decreases s.len(),
{
    if s.len() == 0 {
        assert(s.push(c)[0] == c);
        assert(s.push(c).drop_first() =~= Seq::<char>::empty());
        assert(spec_escape(Seq::<char>::empty()) =~= Seq::<char>::empty());
        assert(spec_escape(s.push(c)) =~= spec_escape_char(c) + Seq::<char>::empty());
        assert(spec_escape(s.push(c)) =~= spec_escape_char(c));
        assert(spec_escape(s) + spec_escape_char(c) =~= spec_escape_char(c));
    } else {
        assert(s.push(c)[0] == s[0]);
        assert(s.push(c).drop_first() =~= s.drop_first().push(c));
        lemma_escape_snoc(s.drop_first(), c);
        assert(spec_escape(s.push(c)) =~= spec_escape(s) + spec_escape_char(c));
    }
}

/// Render a value as it stands inside the quotes.
fn escape_value(v: &str) -> (r: String)
    ensures
        r@ == spec_escape(v@),
{
    let len = v.unicode_len();
    let mut out = String::new();
    proof {
        assert(v@.subrange(0, 0) =~= Seq::<char>::empty());
        assert(out@ =~= spec_escape(v@.subrange(0, 0)));
    }
    let mut i: usize = 0;
    while i < len
        invariant
            i <= len,
            len == v@.len(),
            out@ == spec_escape(v@.subrange(0, i as int)),
        decreases len - i,
    {
        let c = v.get_char(i);
        if c == '\\' {
            out.append("\\\\");
            proof {
                reveal_strlit("\\\\");
                assert("\\\\"@ =~= spec_escape_char('\\'));
            }
        } else if c == '\n' {
            out.append("\\n");
            proof {
                reveal_strlit("\\n");
                assert("\\n"@ =~= spec_escape_char('\n'));
            }
        } else {
            crate::engine::push_one_char(&mut out, c);
            proof {
                assert(seq![c] =~= spec_escape_char(v@[i as int]));
            }
        }
        proof {
            assert(v@.subrange(0, i as int + 1) =~= v@.subrange(0, i as int).push(v@[i as int]));
            lemma_escape_snoc(v@.subrange(0, i as int), v@[i as int]);
        }
        i += 1;
    }
    proof {
        assert(v@.subrange(0, len as int) =~= v@);
    }
    out
}

/// Read a quoted text back into the value it stands for.
fn unescape_value(s: &str) -> (r: Option<String>)
    ensures
        (match r {
            Some(ref v) => spec_unescape(s@) == Some(v@),
            None => spec_unescape(s@) is None,
        }),
{
    let len = s.unicode_len();
    let mut out = String::new();
    proof {
        assert(s@.subrange(0, len as int) =~= s@);
    }
    let mut i: usize = 0;
    while i < len
        invariant
            i <= len,
            len == s@.len(),
            spec_unescape(s@) == (match spec_unescape(s@.subrange(i as int, len as int)) {
                Some(rest) => Some(out@ + rest),
                None => None::<Seq<char>>,
            }),
        decreases len - i,
    {
        let ghost cur = s@.subrange(i as int, len as int);
        proof {
            assert(cur[0] == s@[i as int]);
        }
        let c = s.get_char(i);
        if c == '\\' {
            if i + 1 >= len {
                proof {
                    assert(cur.len() == 1);
                    assert(spec_unescape(cur) is None);
                }
                return None;
            }
            let d = s.get_char(i + 1);
            proof {
                assert(cur[1] == s@[i as int + 1]);
                assert(cur.subrange(2, cur.len() as int) =~= s@.subrange(
                    i as int + 2,
                    len as int,
                ));
            }
            let decoded: char = if d == '\\' {
                '\\'
            } else if d == 'n' {
                '\n'
            } else {
                proof {
                    assert(spec_unescape(cur) is None);
                }
                return None;
            };
            let ghost prev = out@;
            crate::engine::push_one_char(&mut out, decoded);
            proof {
                assert(spec_unescape(cur) == (match spec_unescape(
                    s@.subrange(i as int + 2, len as int),
                ) {
                    Some(rest) => Some(seq![decoded] + rest),
                    None => None::<Seq<char>>,
                }));
                assert(forall|rest: Seq<char>|
                    prev + (seq![decoded] + rest) =~= (prev + seq![decoded]) + rest);
            }
            i += 2;
        } else {
            proof {
                assert(cur.drop_first() =~= s@.subrange(i as int + 1, len as int));
            }
            let ghost prev = out@;
            crate::engine::push_one_char(&mut out, c);
            proof {
                assert(forall|rest: Seq<char>|
                    prev + (seq![c] + rest) =~= (prev + seq![c]) + rest);
            }
            i += 1;
        }
    }
    proof {
        assert(s@.subrange(len as int, len as int) =~= Seq::<char>::empty());
        assert(spec_unescape(Seq::<char>::empty()) == Some(Seq::<char>::empty()));
        assert(out@ + Seq::<char>::empty() =~= out@);
    }
    Some(out)
}

fn kv_num_line(key: &str, n: u64) -> (r: String)
    ensures
        r@ == kv_num(key@, n),
{
    let mut s = key.to_owned();
    s.append(" = ");
    s.append(crate::strings::u64_to_string(n).as_str());
    proof {
        assert(s@ =~= kv_num(key@, n));
    }
    s
}

fn kv_bool_line(key: &str, b: bool) -> (r: String)
    ensures
        r@ == kv_bool(key@, b),
{
    let mut s = key.to_owned();
    s.append(" = ");
    if b {
        s.append("true");
    } else {
        s.append("false");
    }
    proof {
        assert(s@ =~= kv_bool(key@, b));
    }
    s
}

/// Appending one block of share lines extends the rendered line list by that
/// block.
proof fn lemma_shares_lines_snoc(pre: Seq<ShareModel>, s: ShareModel)
    ensures
        spec_shares_lines(pre.push(s)) == spec_shares_lines(pre) + spec_share_lines(s),
    decreases pre.len(),
{
    if pre.len() == 0 {
        assert(pre.push(s)[0] == s);
        assert(pre.push(s).drop_first() =~= Seq::<ShareModel>::empty());
        assert(spec_shares_lines(Seq::<ShareModel>::empty()) =~= Seq::<Seq<char>>::empty());
        assert(spec_shares_lines(pre.push(s)) =~= spec_share_lines(s));
        assert(spec_shares_lines(pre) + spec_share_lines(s) =~= spec_share_lines(s));
    } else {
        assert(pre.push(s)[0] == pre[0]);
        assert(pre.push(s).drop_first() =~= pre.drop_first().push(s));
        lemma_shares_lines_snoc(pre.drop_first(), s);
        assert(spec_shares_lines(pre.push(s)) =~= spec_shares_lines(pre) + spec_share_lines(s));
    }
}

proof fn lemma_aliases_lines_snoc(pre: Seq<AliasModel>, a: AliasModel)
    ensures
        spec_aliases_lines(pre.push(a)) == spec_aliases_lines(pre) + spec_alias_lines(a),
    decreases pre.len(),
{
    if pre.len() == 0 {
        assert(pre.push(a)[0] == a);
        assert(pre.push(a).drop_first() =~= Seq::<AliasModel>::empty());
        assert(spec_aliases_lines(Seq::<AliasModel>::empty()) =~= Seq::<Seq<char>>::empty());
        assert(spec_aliases_lines(pre.push(a)) =~= spec_alias_lines(a));
        assert(spec_aliases_lines(pre) + spec_alias_lines(a) =~= spec_alias_lines(a));
    } else {
        assert(pre.push(a)[0] == pre[0]);
        assert(pre.push(a).drop_first() =~= pre.drop_first().push(a));
        lemma_aliases_lines_snoc(pre.drop_first(), a);
        assert(spec_aliases_lines(pre.push(a)) =~= spec_aliases_lines(pre) + spec_alias_lines(a));
    }
}

/// Joining one more line appends a newline and the line.
proof fn lemma_join_nl_snoc(pre: Seq<Seq<char>>, l: Seq<char>)
    requires
        pre.len() > 0,
    ensures
        join_nl(pre.push(l)) == join_nl(pre) + seq!['\n'] + l,
    decreases pre.len(),
{
    if pre.len() == 1 {
        assert(pre.push(l)[0] == pre[0]);
        assert(pre.push(l).drop_first() =~= seq![l]);
        assert(join_nl(seq![l]) == seq![l][0]);
        assert(join_nl(pre.push(l)) =~= pre[0] + seq!['\n'] + l);
        assert(join_nl(pre) == pre[0]);
    } else {
        assert(pre.push(l)[0] == pre[0]);
        assert(pre.push(l).drop_first() =~= pre.drop_first().push(l));
        lemma_join_nl_snoc(pre.drop_first(), l);
        assert(join_nl(pre.push(l)) =~= join_nl(pre) + seq!['\n'] + l);
    }
}

/// Join lines with single newlines.
fn join_lines(ls: &Vec<String>) -> (r: String)
    requires
        ls@.len() > 0,
    ensures
        r@ == join_nl(ls@.map_values(|l: String| l@)),
{
    let ghost views = ls@.map_values(|l: String| l@);
    let mut out = ls[0].clone();
    proof {
        assert(views.subrange(0, 1) =~= seq![views[0]]);
        assert(join_nl(views.subrange(0, 1)) == views[0]);
    }
    let n = ls.len();
    let mut i: usize = 1;
    while i < n
        invariant
            n == ls@.len(),
            1 <= i <= n,
            views == ls@.map_values(|l: String| l@),
            out@ == join_nl(views.subrange(0, i as int)),
        decreases n - i,
    {
        out.append("\n");
        out.append(ls[i].as_str());
        proof {
            reveal_strlit("\n");
            assert("\n"@ =~= seq!['\n']);
            assert(views.subrange(0, i as int + 1) =~= views.subrange(0, i as int).push(
                views[i as int],
            ));
            lemma_join_nl_snoc(views.subrange(0, i as int), views[i as int]);
        }
        i += 1;
    }
    proof {
        assert(views.subrange(0, n as int) =~= views);
    }
    out
}

/// Render a configuration to its file text.
pub fn save_config_text(c: &Config) -> (r: String)
    ensures
        r@ == spec_save_config(config_model(*c)),
{
    let ghost m = config_model(*c);
    let mut lines: Vec<String> = Vec::new();
    lines.push("[global]".to_owned());
    lines.push(kv_str_line("shares_root", c.global.shares_root.as_str()));
    lines.push(kv_num_line("check_interval_secs", c.global.check_interval_secs));
    lines.push(kv_bool_line("auto_failback", c.global.auto_failback));
    lines.push(kv_num_line("auto_failback_stable_secs", c.global.auto_failback_stable_secs));
    lines.push(kv_num_line("connect_timeout_ms", c.global.connect_timeout_ms));
    lines.push(kv_bool_line("lsof_recheck", c.global.lsof_recheck));
    proof {
        assert(lines@.map_values(|l: String| l@) =~= spec_global_lines(m));
        assert(m.shares.subrange(0, 0) =~= Seq::<ShareModel>::empty());
        assert(lines@.map_values(|l: String| l@) =~= spec_global_lines(m) + spec_shares_lines(
            m.shares.subrange(0, 0),
        ));
    }
    let ns = c.shares.len();
    let mut i: usize = 0;
    while i < ns
        invariant
            ns == c.shares@.len(),
            i <= ns,
            m == config_model(*c),
            m.shares.len() == ns,
            lines@.map_values(|l: String| l@) == spec_global_lines(m) + spec_shares_lines(
                m.shares.subrange(0, i as int),
            ),
        decreases ns - i,
    {
        let s = &c.shares[i];
        proof {
            assert(m.shares[i as int] == share_model(c.shares@[i as int]));
        }
        let ghost before = lines@.map_values(|l: String| l@);
        lines.push("[[shares]]".to_owned());
        lines.push(kv_str_line("name", s.name.as_str()));
        lines.push(kv_str_line("username", s.username.as_str()));
        lines.push(kv_str_line("thunderbolt_host", s.thunderbolt_host.as_str()));
        lines.push(kv_str_line("fallback_host", s.fallback_host.as_str()));
        lines.push(kv_str_line("share_name", s.share_name.as_str()));
        proof {
            assert(lines@.map_values(|l: String| l@) =~= before + spec_share_lines(
                m.shares[i as int],
            ));
            assert(m.shares.subrange(0, i as int + 1) =~= m.shares.subrange(0, i as int).push(
                m.shares[i as int],
            ));
            lemma_shares_lines_snoc(m.shares.subrange(0, i as int), m.shares[i as int]);
            assert(lines@.map_values(|l: String| l@) =~= spec_global_lines(m) + spec_shares_lines(
                m.shares.subrange(0, i as int + 1),
            ));
        }
        i += 1;
    }
    proof {
        assert(m.shares.subrange(0, ns as int) =~= m.shares);
        assert(m.aliases.subrange(0, 0) =~= Seq::<AliasModel>::empty());
        assert(lines@.map_values(|l: String| l@) =~= spec_global_lines(m) + spec_shares_lines(
            m.shares,
        ) + spec_aliases_lines(m.aliases.subrange(0, 0)));
    }
    let na = c.aliases.len();
    let mut i: usize = 0;
    while i < na
        invariant
            na == c.aliases@.len(),
            i <= na,
            m == config_model(*c),
            m.aliases.len() == na,
            lines@.map_values(|l: String| l@) == spec_global_lines(m) + spec_shares_lines(
                m.shares,
            ) + spec_aliases_lines(m.aliases.subrange(0, i as int)),
        decreases na - i,
    {
        let a = &c.aliases[i];
        proof {
            assert(m.aliases[i as int] == alias_model(c.aliases@[i as int]));
        }
        let ghost before = lines@.map_values(|l: String| l@);
        lines.push("[[aliases]]".to_owned());
        lines.push(kv_str_line("name", a.name.as_str()));
        lines.push(kv_str_line("path", a.path.as_str()));
        lines.push(kv_str_line("share", a.share.as_str()));
        lines.push(kv_str_line("target_subpath", a.target_subpath.as_str()));
        proof {
            assert(lines@.map_values(|l: String| l@) =~= before + spec_alias_lines(
                m.aliases[i as int],
            ));
            assert(m.aliases.subrange(0, i as int + 1) =~= m.aliases.subrange(0, i as int).push(
                m.aliases[i as int],
            ));
            lemma_aliases_lines_snoc(m.aliases.subrange(0, i as int), m.aliases[i as int]);
            assert(lines@.map_values(|l: String| l@) =~= spec_global_lines(m) + spec_shares_lines(
                m.shares,
            ) + spec_aliases_lines(m.aliases.subrange(0, i as int + 1)));
        }
        i += 1;
    }
    proof {
        assert(m.aliases.subrange(0, na as int) =~= m.aliases);
        assert(lines@.map_values(|l: String| l@) == spec_config_lines(m));
    }
    join_lines(&lines)
}

// ---------------------------------------------------------------------------
// Executable parsing
// ---------------------------------------------------------------------------

fn parse_kv_str_exec(line: &str, key: &str) -> (r: Option<String>)
    ensures
        (match r {
            Some(ref v) => parse_kv_str(line@, key@) == Some(v@),
            None => parse_kv_str(line@, key@) is None,
        }),
{
    let mut prefix = key.to_owned();
    prefix.append(" = \"");
    proof {
        assert(prefix@ =~= key@ + " = \""@);
    }
    let llen = line.unicode_len();
    let plen = prefix.as_str().unicode_len();
    if llen <= plen {
        return None;
    }
    if !crate::strings::starts_with(line, prefix.as_str()) {
        return None;
    }
    if line.get_char(llen - 1) != '"' {
        return None;
    }
    let quoted = crate::strings::substring(line, plen, llen - 1);
    unescape_value(quoted.as_str())
}

/// The value a digit string's prefix reads is never above what the whole
/// string reads.
proof fn lemma_dec_val_prefix(s: Seq<char>, j: int)
    requires
        0 <= j <= s.len(),
        spec_dec_val(s) is Some,
    ensures
        spec_dec_val(s.subrange(0, j)) is Some,
        spec_dec_val(s.subrange(0, j)).unwrap() <= spec_dec_val(s).unwrap(),
    decreases s.len(),
{
    if j == s.len() {
        assert(s.subrange(0, j) =~= s);
    } else {
        assert(s.drop_last() =~= s.subrange(0, s.len() - 1));
        assert(s.subrange(0, s.len() - 1).subrange(0, j) =~= s.subrange(0, j));
        lemma_dec_val_prefix(s.subrange(0, s.len() - 1), j);
    }
}

fn parse_kv_num_exec(line: &str, key: &str) -> (r: Option<u64>)
    ensures
        r == parse_kv_num(line@, key@),
{
    let mut prefix = key.to_owned();
    prefix.append(" = ");
    proof {
        assert(prefix@ =~= key@ + " = "@);
    }
    let llen = line.unicode_len();
    let plen = prefix.as_str().unicode_len();
    if llen <= plen {
        return None;
    }
    if !crate::strings::starts_with(line, prefix.as_str()) {
        return None;
    }
    let digits = crate::strings::substring(line, plen, llen);
    parse_u64_text(digits.as_str())
}

/// Read a decimal numeral.
pub fn parse_u64_text(s: &str) -> (r: Option<u64>)
    ensures
        r == spec_parse_u64(s@),
{
    let len = s.unicode_len();
    if len == 0 {
        return None;
    }
    let mut acc: u64 = 0;
    let mut j: usize = 0;
    while j < len
        invariant
            j <= len,
            len == s@.len(),
            len > 0,
            spec_dec_val(s@.subrange(0, j as int)) == Some(acc as nat),
        decreases len - j,
    {
        let c = s.get_char(j);
        let u = c as u32;
        if !(48 <= u && u <= 57) {
            proof {
                lemma_dec_val_digit_bad(s@, j as int);
            }
            return None;
        }
        let d: u64 = (u - 48) as u64;
        proof {
            assert(s@.subrange(0, j as int + 1).drop_last() =~= s@.subrange(0, j as int));
            assert(s@.subrange(0, j as int + 1).last() == s@[j as int]);
        }
        if acc > (u64::MAX - d) / 10 {
            proof {
                assert((acc as nat) * 10 + (d as nat) > u64::MAX as nat) by (nonlinear_arith)
                    requires
                        acc as nat > ((u64::MAX - d) as nat) / 10,
                        d < 10,
                ;
                assert(spec_dec_val(s@.subrange(0, j as int + 1)) == Some(
                    (acc as nat) * 10 + (d as nat),
                ));
                if spec_dec_val(s@) is Some {
                    lemma_dec_val_prefix(s@, j as int + 1);
                    assert(spec_dec_val(s@).unwrap() > u64::MAX as nat);
                }
            }
            return None;
        }
        acc = acc * 10 + d;
        j += 1;
    }
    proof {
        assert(s@.subrange(0, len as int) =~= s@);
    }
    Some(acc)
}


/// A non-digit character anywhere makes the whole digit string unreadable.
proof fn lemma_dec_val_digit_bad(s: Seq<char>, j: int)
    requires
        0 <= j < s.len(),
        spec_digit_val(s[j]) is None,
    ensures
        spec_dec_val(s) is None,
    decreases s.len(),
{
    if j == s.len() - 1 {
    } else {
        assert(s.drop_last()[j] == s[j]);
        lemma_dec_val_digit_bad(s.drop_last(), j);
    }
}

fn parse_kv_bool_exec(line: &str, key: &str) -> (r: Option<bool>)
    ensures
        r == parse_kv_bool(line@, key@),
{
    let mut prefix = key.to_owned();
    prefix.append(" = ");
    proof {
        assert(prefix@ =~= key@ + " = "@);
    }
    let llen = line.unicode_len();
    let plen = prefix.as_str().unicode_len();
    if llen <= plen {
        return None;
    }
    if !crate::strings::starts_with(line, prefix.as_str()) {
        return None;
    }
    let rest = crate::strings::substring(line, plen, llen);
    if crate::strings::str_eq(rest.as_str(), "true") {
        Some(true)
    } else if crate::strings::str_eq(rest.as_str(), "false") {
        Some(false)
    } else {
        None
    }
}

/// Read a configuration back from its file text. The text must have exactly
/// the shape [`save_config_text`] writes.
pub fn load_config_text(text: &str) -> (r: Option<Config>)
    ensures
        (match r {
            Some(ref c) => spec_load_config(text@) == Some(config_model(*c)),
            None => spec_load_config(text@) is None,
        }),
{
    let ls = crate::strings::lines(text);
    let ghost lviews = ls@.map_values(|l: String| l@);
    let n = ls.len();
    if n < 7 {
        return None;
    }
    if !crate::strings::str_eq(ls[0].as_str(), "[global]") {
        return None;
    }
    let shares_root = match parse_kv_str_exec(ls[1].as_str(), "shares_root") {
        Some(v) => v,
        None => {
            return None;
        },
    };
    let check_interval_secs = match parse_kv_num_exec(ls[2].as_str(), "check_interval_secs") {
        Some(v) => v,
        None => {
            return None;
        },
    };
    let auto_failback = match parse_kv_bool_exec(ls[3].as_str(), "auto_failback") {
        Some(v) => v,
        None => {
            return None;
        },
    };
    let auto_failback_stable_secs = match parse_kv_num_exec(
        ls[4].as_str(),
        "auto_failback_stable_secs",
    ) {
        Some(v) => v,
        None => {
            return None;
        },
    };
    let connect_timeout_ms = match parse_kv_num_exec(ls[5].as_str(), "connect_timeout_ms") {
        Some(v) => v,
        None => {
            return None;
        },
    };
    let lsof_recheck = match parse_kv_bool_exec(ls[6].as_str(), "lsof_recheck") {
        Some(v) => v,
        None => {
            return None;
        },
    };
    let ghost global_parsed = (
        shares_root@,
        check_interval_secs,
        auto_failback,
        auto_failback_stable_secs,
        connect_timeout_ms,
        lsof_recheck,
    );

    let mut shares: Vec<ShareConfig> = Vec::new();
    proof {
        assert(shares@.map_values(|s: ShareConfig| share_model(s)) =~= Seq::<ShareModel>::empty());
        assert forall|rest: Seq<ShareModel>|
            Seq::<ShareModel>::empty() + rest =~= rest by {}
    }
    let mut pos: usize = 7;
    while pos < n && crate::strings::str_eq(ls[pos].as_str(), "[[shares]]")
        invariant
            n == ls@.len(),
            lviews == ls@.map_values(|l: String| l@),
            lviews == spec_lines(text@),
            n >= 7,
            lviews[0] == "[global]"@,
            parse_kv_str(lviews[1], "shares_root"@) == Some(shares_root@),
            parse_kv_num(lviews[2], "check_interval_secs"@) == Some(check_interval_secs),
            parse_kv_bool(lviews[3], "auto_failback"@) == Some(auto_failback),
            parse_kv_num(lviews[4], "auto_failback_stable_secs"@) == Some(
                auto_failback_stable_secs,
            ),
            parse_kv_num(lviews[5], "connect_timeout_ms"@) == Some(connect_timeout_ms),
            parse_kv_bool(lviews[6], "lsof_recheck"@) == Some(lsof_recheck),
            7 <= pos <= n,
            spec_parse_shares(lviews.subrange(7, n as int)) == (match spec_parse_shares(
                lviews.subrange(pos as int, n as int),
            ) {
                Some((rest, rem)) => Some(
                    (shares@.map_values(|s: ShareConfig| share_model(s)) + rest, rem),
                ),
                None => None::<(Seq<ShareModel>, Seq<Seq<char>>)>,
            }),
        decreases n - pos,
    {
        proof {
            reveal_strlit("[[shares]]");
        }
        let ghost cur = lviews.subrange(pos as int, n as int);
        if n - pos < 6 {
            proof {
                assert(cur[0] == lviews[pos as int]);
                assert(spec_parse_shares(cur) is None);
            }
            return None;
        }
        let name = match parse_kv_str_exec(ls[pos + 1].as_str(), "name") {
            Some(v) => v,
            None => {
                proof {
                    assert(cur[0] == lviews[pos as int]);
                    assert(cur[1] == lviews[pos as int + 1]);
                    assert(spec_parse_shares(cur) is None);
                }
                return None;
            },
        };
        let username = match parse_kv_str_exec(ls[pos + 2].as_str(), "username") {
            Some(v) => v,
            None => {
                proof {
                    assert(cur[0] == lviews[pos as int]);
                    assert(cur[2] == lviews[pos as int + 2]);
                    assert(spec_parse_shares(cur) is None);
                }
                return None;
            },
        };
        let thunderbolt_host = match parse_kv_str_exec(ls[pos + 3].as_str(), "thunderbolt_host") {
            Some(v) => v,
            None => {
                proof {
                    assert(cur[0] == lviews[pos as int]);
                    assert(cur[3] == lviews[pos as int + 3]);
                    assert(spec_parse_shares(cur) is None);
                }
                return None;
            },
        };
        let fallback_host = match parse_kv_str_exec(ls[pos + 4].as_str(), "fallback_host") {
            Some(v) => v,
            None => {
                proof {
                    assert(cur[0] == lviews[pos as int]);
                    assert(cur[4] == lviews[pos as int + 4]);
                    assert(spec_parse_shares(cur) is None);
                }
                return None;
            },
        };
        let share_name = match parse_kv_str_exec(ls[pos + 5].as_str(), "share_name") {
            Some(v) => v,
            None => {
                proof {
                    assert(cur[0] == lviews[pos as int]);
                    assert(cur[5] == lviews[pos as int + 5]);
                    assert(spec_parse_shares(cur) is None);
                }
                return None;
            },
        };
        let ghost prev_models = shares@.map_values(|s: ShareConfig| share_model(s));
        let share = ShareConfig { name, username, thunderbolt_host, fallback_host, share_name };
        proof {
            assert(cur[0] == lviews[pos as int]);
            assert(cur[1] == lviews[pos as int + 1]);
            assert(cur[2] == lviews[pos as int + 2]);
            assert(cur[3] == lviews[pos as int + 3]);
            assert(cur[4] == lviews[pos as int + 4]);
            assert(cur[5] == lviews[pos as int + 5]);
            assert(cur.subrange(6, cur.len() as int) =~= lviews.subrange(
                pos as int + 6,
                n as int,
            ));
            assert(spec_parse_shares(cur) == (match spec_parse_shares(
                lviews.subrange(pos as int + 6, n as int),
            ) {
                Some((rest, rem)) => Some((seq![share_model(share)] + rest, rem)),
                None => None::<(Seq<ShareModel>, Seq<Seq<char>>)>,
            }));
        }
        shares.push(share);
        proof {
            assert(shares@.map_values(|s: ShareConfig| share_model(s)) =~= prev_models.push(
                share_model(shares@.last()),
            ));
            assert forall|rest: Seq<ShareModel>|
                prev_models + (seq![share_model(shares@.last())] + rest) =~= shares@.map_values(
                    |s: ShareConfig| share_model(s),
                ) + rest by {}
        }
        pos = pos + 6;
    }
    proof {
        reveal_strlit("[[shares]]");
        let cur = lviews.subrange(pos as int, n as int);
        if pos < n {
            assert(cur[0] == lviews[pos as int]);
            assert(cur[0] != "[[shares]]"@);
        }
        assert(spec_parse_shares(cur) == Some((Seq::<ShareModel>::empty(), cur)));
        assert(shares@.map_values(|s: ShareConfig| share_model(s)) + Seq::<ShareModel>::empty()
            =~= shares@.map_values(|s: ShareConfig| share_model(s)));
    }
    let ghost share_models = shares@.map_values(|s: ShareConfig| share_model(s));
    let ghost shares_rem = lviews.subrange(pos as int, n as int);

    let mut aliases: Vec<AliasConfig> = Vec::new();
    proof {
        assert(aliases@.map_values(|a: AliasConfig| alias_model(a)) =~= Seq::<AliasModel>::empty());
        assert forall|rest: Seq<AliasModel>|
            Seq::<AliasModel>::empty() + rest =~= rest by {}
    }
    let ghost apos0 = pos;
    while pos < n && crate::strings::str_eq(ls[pos].as_str(), "[[aliases]]")
        invariant
            n == ls@.len(),
            lviews == ls@.map_values(|l: String| l@),
            lviews == spec_lines(text@),
            n >= 7,
            lviews[0] == "[global]"@,
            parse_kv_str(lviews[1], "shares_root"@) == Some(shares_root@),
            parse_kv_num(lviews[2], "check_interval_secs"@) == Some(check_interval_secs),
            parse_kv_bool(lviews[3], "auto_failback"@) == Some(auto_failback),
            parse_kv_num(lviews[4], "auto_failback_stable_secs"@) == Some(
                auto_failback_stable_secs,
            ),
            parse_kv_num(lviews[5], "connect_timeout_ms"@) == Some(connect_timeout_ms),
            parse_kv_bool(lviews[6], "lsof_recheck"@) == Some(lsof_recheck),
            7 <= apos0 <= pos <= n,
            shares_rem == lviews.subrange(apos0 as int, n as int),
            spec_parse_shares(lviews.subrange(7, n as int)) == Some((share_models, shares_rem)),
            share_models == shares@.map_values(|s: ShareConfig| share_model(s)),
            spec_parse_aliases(shares_rem) == (match spec_parse_aliases(
                lviews.subrange(pos as int, n as int),
            ) {
                Some((rest, rem)) => Some(
                    (aliases@.map_values(|a: AliasConfig| alias_model(a)) + rest, rem),
                ),
                None => None::<(Seq<AliasModel>, Seq<Seq<char>>)>,
            }),
        decreases n - pos,
    {
        proof {
            reveal_strlit("[[aliases]]");
        }
        let ghost cur = lviews.subrange(pos as int, n as int);
        if n - pos < 5 {
            proof {
                assert(cur[0] == lviews[pos as int]);
                assert(spec_parse_aliases(cur) is None);
            }
            return None;
        }
        let name = match parse_kv_str_exec(ls[pos + 1].as_str(), "name") {
            Some(v) => v,
            None => {
                proof {
                    assert(cur[0] == lviews[pos as int]);
                    assert(cur[1] == lviews[pos as int + 1]);
                    assert(spec_parse_aliases(cur) is None);
                }
                return None;
            },
        };
        let path = match parse_kv_str_exec(ls[pos + 2].as_str(), "path") {
            Some(v) => v,
            None => {
                proof {
                    assert(cur[0] == lviews[pos as int]);
                    assert(cur[2] == lviews[pos as int + 2]);
                    assert(spec_parse_aliases(cur) is None);
                }
                return None;
            },
        };
        let share = match parse_kv_str_exec(ls[pos + 3].as_str(), "share") {
            Some(v) => v,
            None => {
                proof {
                    assert(cur[0] == lviews[pos as int]);
                    assert(cur[3] == lviews[pos as int + 3]);
                    assert(spec_parse_aliases(cur) is None);
                }
                return None;
            },
        };
        let target_subpath = match parse_kv_str_exec(ls[pos + 4].as_str(), "target_subpath") {
            Some(v) => v,
            None => {
                proof {
                    assert(cur[0] == lviews[pos as int]);
                    assert(cur[4] == lviews[pos as int + 4]);
                    assert(spec_parse_aliases(cur) is None);
                }
                return None;
            },
        };
        let ghost prev_models = aliases@.map_values(|a: AliasConfig| alias_model(a));
        let alias = AliasConfig { name, path, share, target_subpath };
        proof {
            assert(cur[0] == lviews[pos as int]);
            assert(cur[1] == lviews[pos as int + 1]);
            assert(cur[2] == lviews[pos as int + 2]);
            assert(cur[3] == lviews[pos as int + 3]);
            assert(cur[4] == lviews[pos as int + 4]);
            assert(cur.subrange(5, cur.len() as int) =~= lviews.subrange(
                pos as int + 5,
                n as int,
            ));
            assert(spec_parse_aliases(cur) == (match spec_parse_aliases(
                lviews.subrange(pos as int + 5, n as int),
            ) {
                Some((rest, rem)) => Some((seq![alias_model(alias)] + rest, rem)),
                None => None::<(Seq<AliasModel>, Seq<Seq<char>>)>,
            }));
        }
        aliases.push(alias);
        proof {
            assert(aliases@.map_values(|a: AliasConfig| alias_model(a)) =~= prev_models.push(
                alias_model(aliases@.last()),
            ));
            assert forall|rest: Seq<AliasModel>|
                prev_models + (seq![alias_model(aliases@.last())] + rest) =~= aliases@.map_values(
                    |a: AliasConfig| alias_model(a),
                ) + rest by {}
        }
        pos = pos + 5;
    }
    proof {
        reveal_strlit("[[aliases]]");
        let cur = lviews.subrange(pos as int, n as int);
        if pos < n {
            assert(cur[0] == lviews[pos as int]);
            assert(cur[0] != "[[aliases]]"@);
        }
        assert(spec_parse_aliases(cur) == Some((Seq::<AliasModel>::empty(), cur)));
        assert(aliases@.map_values(|a: AliasConfig| alias_model(a)) + Seq::<AliasModel>::empty()
            =~= aliases@.map_values(|a: AliasConfig| alias_model(a)));
    }
    if pos != n {
        return None;
    }
    proof {
        assert(lviews.subrange(pos as int, n as int).len() == 0);
    }
    let config = Config {
        global: GlobalConfig {
            shares_root,
            check_interval_secs,
            auto_failback,
            auto_failback_stable_secs,
            connect_timeout_ms,
            lsof_recheck,
        },
        shares,
        aliases,
    };
    proof {
        assert(config_model(config).shares =~= share_models);
        assert(spec_load_config(text@) == Some(config_model(config)));
    }
    Some(config)
}

/// Validation depends only on what a configuration says, so any two
/// configurations with the same model — in particular a configuration and
/// the loaded result of saving it — validate identically.
pub proof fn lemma_validate_agrees_on_model(c1: Config, c2: Config)
    requires
        config_model(c1) == config_model(c2),
    ensures
        crate::config::config_valid(c1) == crate::config::config_valid(c2),
{
    let m1 = config_model(c1);
    let m2 = config_model(c2);
    assert(c1.shares@.len() == c2.shares@.len()) by {
        assert(m1.shares.len() == c1.shares@.len());
        assert(m2.shares.len() == c2.shares@.len());
    }
    assert(c1.aliases@.len() == c2.aliases@.len()) by {
        assert(m1.aliases.len() == c1.aliases@.len());
        assert(m2.aliases.len() == c2.aliases@.len());
    }
    assert forall|i: int| 0 <= i < c1.shares@.len() implies share_model(#[trigger] c1.shares@[i])
        == share_model(c2.shares@[i]) by {
        assert(m1.shares[i] == share_model(c1.shares@[i]));
        assert(m2.shares[i] == share_model(c2.shares@[i]));
    }
    assert forall|i: int| 0 <= i < c1.aliases@.len() implies alias_model(
        #[trigger] c1.aliases@[i],
    ) == alias_model(c2.aliases@[i]) by {
        assert(m1.aliases[i] == alias_model(c1.aliases@[i]));
        assert(m2.aliases[i] == alias_model(c2.aliases@[i]));
    }
    assert(crate::config::share_names_unique(c1.shares@) == crate::config::share_names_unique(
        c2.shares@,
    )) by {
        assert forall|i: int, j: int|
            0 <= i < j < c1.shares@.len() implies crate::strings::eq_ignore_case(
            c1.shares@[i].name@,
            c1.shares@[j].name@,
        ) == crate::strings::eq_ignore_case(c2.shares@[i].name@, c2.shares@[j].name@) by {
            assert(share_model(c1.shares@[i]) == share_model(c2.shares@[i]));
            assert(share_model(c1.shares@[j]) == share_model(c2.shares@[j]));
        }
    }
    assert(crate::config::alias_names_unique(c1.aliases@) == crate::config::alias_names_unique(
        c2.aliases@,
    )) by {
        assert forall|i: int, j: int|
            0 <= i < j < c1.aliases@.len() implies crate::strings::eq_ignore_case(
            c1.aliases@[i].name@,
            c1.aliases@[j].name@,
        ) == crate::strings::eq_ignore_case(c2.aliases@[i].name@, c2.aliases@[j].name@) by {
            assert(alias_model(c1.aliases@[i]) == alias_model(c2.aliases@[i]));
            assert(alias_model(c1.aliases@[j]) == alias_model(c2.aliases@[j]));
        }
    }
    assert forall|i: int|
        0 <= i < c1.shares@.len() implies crate::config::share_fields_ok(#[trigger] c1.shares@[i])
        == crate::config::share_fields_ok(c2.shares@[i]) by {
        assert(share_model(c1.shares@[i]) == share_model(c2.shares@[i]));
    }
    assert forall|i: int|
        0 <= i < c1.aliases@.len() implies crate::strings::is_blank_seq(
        (#[trigger] c1.aliases@[i]).name@,
    ) == crate::strings::is_blank_seq(c2.aliases@[i].name@) by {
        assert(alias_model(c1.aliases@[i]) == alias_model(c2.aliases@[i]));
    }
    assert(c1.global.shares_root@ == c2.global.shares_root@) by {
        assert(m1.shares_root == m2.shares_root);
    }
    if crate::config::config_valid(c1) {
        assert forall|i: int|
            0 <= i < c2.shares@.len() implies crate::config::share_fields_ok(
            #[trigger] c2.shares@[i],
        ) by {
            assert(crate::config::share_fields_ok(c1.shares@[i]));
        }
        assert forall|i: int|
            0 <= i < c2.aliases@.len() implies !crate::strings::is_blank_seq(
            (#[trigger] c2.aliases@[i]).name@,
        ) by {
            assert(!crate::strings::is_blank_seq(c1.aliases@[i].name@));
        }
        assert(crate::config::config_valid(c2));
    }
    if crate::config::config_valid(c2) {
        assert forall|i: int|
            0 <= i < c1.shares@.len() implies crate::config::share_fields_ok(
            #[trigger] c1.shares@[i],
        ) by {
            assert(crate::config::share_fields_ok(c2.shares@[i]));
        }
        assert forall|i: int|
            0 <= i < c1.aliases@.len() implies !crate::strings::is_blank_seq(
            (#[trigger] c1.aliases@[i]).name@,
        ) by {
            assert(!crate::strings::is_blank_seq(c2.aliases@[i].name@));
        }
        assert(crate::config::config_valid(c1));
    }
}

/// Round trip for every configuration that passes validation — a special
/// case of the unconditional round trip above, stated for the store's
/// load-after-save path.
pub proof fn lemma_validated_config_round_trips(c: Config)
    requires
        crate::config::config_valid(c),
    ensures
        spec_load_config(spec_save_config(config_model(c))) == Some(config_model(c)),
{
    lemma_save_load_config(config_model(c));
}

} // verus!
