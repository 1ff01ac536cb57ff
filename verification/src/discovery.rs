//! Parsers for the output of the OS tools the daemon consults: the SMB mount
//! table, the share enumerator, and the hardware-port listing, plus the
//! classification of a share-existence preflight. Running the tools is an
//! operating-system effect and happens outside this crate; their output
//! arrives here as text.

use vstd::prelude::*;

use crate::strings::{
    contains_sub, eq_ignore_ascii_case, eq_ignore_case, find_str, has_sub_at, is_space,
    is_space_char, lines, spec_lines, spec_trim_ws, starts_with, str_eq, substring, trim_ws,
};

verus! {

/// Outcome of asking a server whether it offers a share.
#[derive(Debug, Clone, PartialEq)]
pub enum ShareCheckResult {
    Available,
    NotFound,
    Unknown { reason: String },
}

/// The first offset at which `n` occurs in `h`, if any.
pub open spec fn spec_find_sub(h: Seq<char>, n: Seq<char>) -> Option<nat>
    decreases h.len(),
{
    if n.len() <= h.len() && h.subrange(0, n.len() as int) == n {
        Some(0)
    } else if h.len() == 0 {
        None
    } else {
        match spec_find_sub(h.drop_first(), n) {
            Some(k) => Some(k + 1),
            None => None,
        }
    }
}

/// `spec_find_sub` finds exactly the first occurrence.
pub proof fn lemma_find_sub(h: Seq<char>, n: Seq<char>)
    ensures
        match spec_find_sub(h, n) {
            Some(k) => has_sub_at(h, n, k as int) && forall|kk: int|
                0 <= kk < k ==> !has_sub_at(h, n, kk),
            None => !contains_sub(h, n),
        },
    decreases h.len(),
{
    if n.len() <= h.len() && h.subrange(0, n.len() as int) == n {
    } else if h.len() == 0 {
        assert forall|k: int| !has_sub_at(h, n, k) by {}
    } else {
        lemma_find_sub(h.drop_first(), n);
        match spec_find_sub(h.drop_first(), n) {
            Some(k) => {
                assert(h.drop_first().subrange(k as int, k + n.len() as int) =~= h.subrange(
                    k as int + 1,
                    k + 1 + n.len() as int,
                ));
                assert(has_sub_at(h, n, k as int + 1));
                assert forall|kk: int| 0 <= kk < k as int + 1 implies !has_sub_at(h, n, kk) by {
                    if kk == 0 {
                        assert(h.subrange(0, n.len() as int) != n);
                    } else {
                        assert(!has_sub_at(h.drop_first(), n, kk - 1));
                        if has_sub_at(h, n, kk) {
                            assert(h.subrange(kk, kk + n.len() as int) =~= h.drop_first()
                                .subrange(kk - 1, kk - 1 + n.len() as int));
                        }
                    }
                }
            },
            None => {
                assert forall|k: int| !has_sub_at(h, n, k) by {
                    if k > 0 && has_sub_at(h, n, k) {
                        assert(h.subrange(k, k + n.len() as int) =~= h.drop_first().subrange(
                            k - 1,
                            k - 1 + n.len() as int,
                        ));
                        assert(has_sub_at(h.drop_first(), n, k - 1));
                    }
                    if k == 0 && has_sub_at(h, n, 0) {
                        assert(h.subrange(0, n.len() as int) == n);
                    }
                }
            },
        }
    }
}

/// The pieces of `h` on either side of the first occurrence of `n`, if any:
/// what `str::split_once` yields.
pub open spec fn spec_split_once(h: Seq<char>, n: Seq<char>) -> Option<(Seq<char>, Seq<char>)> {
    match spec_find_sub(h, n) {
        Some(k) => Some(
            (h.subrange(0, k as int), h.subrange(k + n.len() as int, h.len() as int)),
        ),
        None => None,
    }
}

/// Split at the first occurrence of `n`, dropping the separator.
pub fn split_once(h: &str, n: &str) -> (r: Option<(String, String)>)
    ensures
        match r {
            Some(pair) => spec_split_once(h@, n@) == Some((pair.0@, pair.1@)),
            None => spec_split_once(h@, n@) is None,
        },
{
    proof {
        lemma_find_sub(h@, n@);
    }
    match find_str(h, n) {
        Some(k) => {
            proof {
                match spec_find_sub(h@, n@) {
                    Some(sk) => {
                        assert(!(sk < k) && !(k < sk));
                    },
                    None => {
                        assert(contains_sub(h@, n@));
                    },
                }
            }
            let before = substring(h, 0, k);
            let hlen = h.unicode_len();
            let nlen = n.unicode_len();
            let after = substring(h, k + nlen, hlen);
            Some((before, after))
        },
        None => {
            proof {
                if spec_find_sub(h@, n@) is Some {
                    assert(contains_sub(h@, n@));
                }
            }
            None
        },
    }
}

/// Leading `//` pairs removed, as `trim_start_matches("//")` removes them.
pub open spec fn spec_strip_slash_pairs(s: Seq<char>) -> Seq<char>
    decreases s.len(),
{
    if s.len() >= 2 && s[0] == '/' && s[1] == '/' {
        spec_strip_slash_pairs(s.subrange(2, s.len() as int))
    } else {
        s
    }
}

fn strip_slash_pairs(s: &str) -> (r: String)
    ensures
        r@ == spec_strip_slash_pairs(s@),
{
    let len = s.unicode_len();
    proof {
        assert(s@.subrange(0, len as int) =~= s@);
    }
    let mut from: usize = 0;
    while len - from >= 2 && s.get_char(from) == '/' && s.get_char(from + 1) == '/'
        invariant
            len == s@.len(),
            from <= len,
            spec_strip_slash_pairs(s@) == spec_strip_slash_pairs(
                s@.subrange(from as int, len as int),
            ),
        decreases len - from,
    {
        proof {
            assert(s@.subrange(from as int, len as int).subrange(
                2,
                s@.subrange(from as int, len as int).len() as int,
            ) =~= s@.subrange(from as int + 2, len as int));
        }
        from += 2;
    }
    proof {
        let rest = s@.subrange(from as int, len as int);
        assert(!(rest.len() >= 2 && rest[0] == '/' && rest[1] == '/'));
    }
    substring(s, from, len)
}

/// One line of `mount -t smbfs` output parsed into `(server, share,
/// mount_point)`: the form is `//user@server/SHARE on /mount/point (flags)`,
/// with the `user@` part optional.
pub open spec fn spec_parse_mount_line(line: Seq<char>) -> Option<(Seq<char>, Seq<char>, Seq<char>)> {
    match spec_split_once(line, " on "@) {
        Some((smb_part, rest)) => match spec_split_once(rest, " ("@) {
            Some((mount_point, _flags)) => {
                let path = spec_strip_slash_pairs(smb_part);
                let host_path = match spec_split_once(path, "@"@) {
                    Some((_user, after_at)) => after_at,
                    None => path,
                };
                match spec_split_once(host_path, "/"@) {
                    Some((server, share)) => Some((server, share, mount_point)),
                    None => None,
                }
            },
            None => None,
        },
        None => None,
    }
}

fn parse_mount_line(line: &str) -> (r: Option<(String, String, String)>)
    ensures
        match r {
            Some(t) => spec_parse_mount_line(line@) == Some((t.0@, t.1@, t.2@)),
            None => spec_parse_mount_line(line@) is None,
        },
{
    let (smb_part, rest) = match split_once(line, " on ") {
        Some(p) => p,
        None => {
            return None;
        },
    };
    let (mount_point, _flags) = match split_once(rest.as_str(), " (") {
        Some(p) => p,
        None => {
            return None;
        },
    };
    let path = strip_slash_pairs(smb_part.as_str());
    let host_path = match split_once(path.as_str(), "@") {
        Some(p) => p.1,
        None => path,
    };
    match split_once(host_path.as_str(), "/") {
        Some(p) => Some((p.0, p.1, mount_point)),
        None => None,
    }
}

/// Every line of the output parsed, unparsable lines skipped.
pub open spec fn spec_mount_records(ls: Seq<Seq<char>>) -> Seq<(Seq<char>, Seq<char>, Seq<char>)>
    decreases ls.len(),
{
    if ls.len() == 0 {
        Seq::empty()
    } else {
        (match spec_parse_mount_line(ls[0]) {
            Some(t) => seq![t],
            None => Seq::empty(),
        }) + spec_mount_records(ls.drop_first())
    }
}

/// Parse `mount -t smbfs` output into `(server, share, mount_point)`
/// records.
pub fn parse_mount_smbfs(text: &str) -> (r: Vec<(String, String, String)>)
    ensures
        r@.map_values(|t: (String, String, String)| (t.0@, t.1@, t.2@)) == spec_mount_records(
            spec_lines(text@),
        ),
{
    let ls = lines(text);
    let ghost lviews = ls@.map_values(|l: String| l@);
    let mut out: Vec<(String, String, String)> = Vec::new();
    let n = ls.len();
    proof {
        assert(lviews.subrange(0, n as int) =~= lviews);
        assert(out@.map_values(|t: (String, String, String)| (t.0@, t.1@, t.2@)) =~= Seq::<(
            Seq<char>,
            Seq<char>,
            Seq<char>,
        )>::empty());
        assert(out@.map_values(|t: (String, String, String)| (t.0@, t.1@, t.2@))
            + spec_mount_records(lviews) =~= spec_mount_records(lviews));
    }
    let mut i: usize = 0;
    while i < n
        invariant
            n == ls@.len(),
            i <= n,
            lviews == ls@.map_values(|l: String| l@),
            spec_mount_records(lviews) == out@.map_values(
                |t: (String, String, String)| (t.0@, t.1@, t.2@),
            ) + spec_mount_records(lviews.subrange(i as int, n as int)),
        decreases n - i,
    {
        proof {
            assert(lviews.subrange(i as int, n as int)[0] == lviews[i as int]);
            assert(lviews.subrange(i as int, n as int).drop_first() =~= lviews.subrange(
                i as int + 1,
                n as int,
            ));
        }
        let ghost prev = out@;
        if let Some(t) = parse_mount_line(ls[i].as_str()) {
            out.push(t);
            proof {
                assert(out@.map_values(|t: (String, String, String)| (t.0@, t.1@, t.2@)) =~= prev
                    .map_values(|t: (String, String, String)| (t.0@, t.1@, t.2@)) + seq![
                    (out@.last().0@, out@.last().1@, out@.last().2@),
                ]);
            }
        }
        proof {
            assert(spec_mount_records(lviews) == out@.map_values(
                |t: (String, String, String)| (t.0@, t.1@, t.2@),
            ) + spec_mount_records(lviews.subrange(i as int + 1, n as int)));
        }
        i += 1;
    }
    proof {
        assert(lviews.subrange(n as int, n as int) =~= Seq::<Seq<char>>::empty());
        assert(spec_mount_records(lviews) =~= out@.map_values(
            |t: (String, String, String)| (t.0@, t.1@, t.2@),
        ));
    }
    out
}

/// The first whitespace-delimited token of a line.
pub open spec fn spec_first_token(s: Seq<char>) -> Seq<char> {
    s.subrange(0, crate::strings::first_sep_idx(s, ws_seps()) as int)
}

pub open spec fn ws_seps() -> Seq<char> {
    seq![' ', '\t', '\n', '\r']
}

fn first_token(s: &str) -> (r: String)
    ensures
        r@ == spec_first_token(s@),
{
    let len = s.unicode_len();
    let mut i: usize = 0;
    while i < len && !is_space(s.get_char(i))
        invariant
            len == s@.len(),
            i <= len,
            forall|j: int| 0 <= j < i ==> !ws_seps().contains(#[trigger] s@[j]),
        decreases len - i,
    {
        proof {
            assert(ws_seps().contains(s@[i as int]) == is_space_char(s@[i as int]));
        }
        i += 1;
    }
    proof {
        crate::strings::lemma_first_sep_idx(s@, ws_seps());
        if i < len {
            assert(ws_seps().contains(s@[i as int]));
        }
        let fi = crate::strings::first_sep_idx(s@, ws_seps());
        assert(!(fi < i) && !(i < fi));
    }
    substring(s, 0, i)
}

/// Whether one line of `smbutil view` output lists the share: the line,
/// trimmed, is not empty, is not the header or a separator, and its first
/// token equals the share name up to ASCII case.
pub open spec fn spec_view_line_lists_share(line: Seq<char>, share: Seq<char>) -> bool {
    let t = spec_trim_ws(line);
    &&& t.len() > 0
    &&& !(t.len() >= 5 && t.subrange(0, 5) == "Share"@)
    &&& !(t.len() >= 5 && t.subrange(0, 5) == "-----"@)
    &&& eq_ignore_case(spec_first_token(t), share)
}

/// Whether `smbutil view` output lists the share on any line.
pub open spec fn spec_view_lists_share(text: Seq<char>, share: Seq<char>) -> bool {
    exists|i: int|
        0 <= i < spec_lines(text).len() && spec_view_line_lists_share(
            #[trigger] spec_lines(text)[i],
            share,
        )
}

/// Parse `smbutil view` output and report whether it lists the share.
pub fn parse_smbutil_view_contains_share(stdout: &str, share: &str) -> (r: bool)
    ensures
        r == spec_view_lists_share(stdout@, share@),
{
    proof {
        reveal_strlit("Share");
        reveal_strlit("-----");
    }
    let ls = lines(stdout);
    let ghost lviews = ls@.map_values(|l: String| l@);
    let n = ls.len();
    let mut i: usize = 0;
    while i < n
        invariant
            n == ls@.len(),
            lviews == ls@.map_values(|l: String| l@),
            lviews == spec_lines(stdout@),
            i <= n,
            forall|j: int| 0 <= j < i ==> !spec_view_line_lists_share(#[trigger] lviews[j], share@),
        decreases n - i,
    {
        proof {
            reveal_strlit("Share");
            reveal_strlit("-----");
            assert(lviews[i as int] == ls@[i as int]@);
        }
        let t = trim_ws(ls[i].as_str());
        let listed = if t.as_str().unicode_len() == 0 {
            false
        } else if starts_with(t.as_str(), "Share") {
            false
        } else if starts_with(t.as_str(), "-----") {
            false
        } else {
            let tok = first_token(t.as_str());
            eq_ignore_ascii_case(tok.as_str(), share)
        };
        proof {
            assert(listed == spec_view_line_lists_share(lviews[i as int], share@));
        }
        if listed {
            return true;
        }
        i += 1;
    }
    false
}

/// What running the enumerator produced, as the executor observed it.
#[derive(Debug, Clone)]
pub struct ViewCommandOutcome {
    /// The command could not be run at all (spawn failure, timeout): why.
    pub run_error: Option<String>,
    /// The command ran and exited successfully.
    pub exit_ok: bool,
    /// The exit status, rendered as text, for the failure message.
    pub status_text: String,
    /// What the command printed on its standard output.
    pub stdout: String,
    /// What the command printed on its standard error, trimmed.
    pub stderr: String,
}

/// Classify a share-existence preflight from the enumerator's outcome:
/// `Unknown` when the enumerator could not answer (spawn failure, timeout,
/// non-zero exit), otherwise `Available` exactly when the output lists the
/// share.
pub fn check_share_available(outcome: &ViewCommandOutcome, share: &str) -> (r: ShareCheckResult)
    ensures
        outcome.run_error matches Some(e) ==> (r matches ShareCheckResult::Unknown { reason }
            && reason == e),
        outcome.run_error is None && !outcome.exit_ok ==> (r matches ShareCheckResult::Unknown {
            reason,
        } && reason@ == "smbutil view exited with "@ + outcome.status_text@ + ": "@
            + outcome.stderr@),
        outcome.run_error is None && outcome.exit_ok ==> (r is Available <==> spec_view_lists_share(
            outcome.stdout@,
            share@,
        )) && (r is Available || r is NotFound),
{
    if let Some(e) = &outcome.run_error {
        return ShareCheckResult::Unknown { reason: e.clone() };
    }
    if !outcome.exit_ok {
        let mut reason = "smbutil view exited with ".to_owned();
        reason.append(outcome.status_text.as_str());
        reason.append(": ");
        reason.append(outcome.stderr.as_str());
        return ShareCheckResult::Unknown { reason };
    }
    if parse_smbutil_view_contains_share(outcome.stdout.as_str(), share) {
        ShareCheckResult::Available
    } else {
        ShareCheckResult::NotFound
    }
}

/// Underscores replaced by spaces, as the SMB version string is cleaned up.
pub open spec fn spec_underscores_to_spaces(s: Seq<char>) -> Seq<char> {
    s.map_values(
        |c: char|
            if c == '_' {
                ' '
            } else {
                c
            },
    )
}

fn underscores_to_spaces(s: &str) -> (r: String)
    ensures
        r@ == spec_underscores_to_spaces(s@),
{
    let len = s.unicode_len();
    let mut chars: Vec<char> = Vec::new();
    let mut i: usize = 0;
    while i < len
        invariant
            i <= len,
            len == s@.len(),
            chars@ =~= spec_underscores_to_spaces(s@).subrange(0, i as int),
        decreases len - i,
    {
        let c = s.get_char(i);
        if c == '_' {
            chars.push(' ');
        } else {
            chars.push(c);
        }
        proof {
            assert(chars@ =~= spec_underscores_to_spaces(s@).subrange(0, i as int + 1));
        }
        i += 1;
    }
    proof {
        assert(spec_underscores_to_spaces(s@).subrange(0, len as int) =~= spec_underscores_to_spaces(
            s@,
        ));
    }
    crate::engine::chars_to_string(&chars)
}

/// How one line of `smbutil statshares -a` output is read, given the share
/// name the previous lines established: separators and headers are skipped, a
/// line starting in the first column names a share, and an indented
/// `SMB_VERSION` line records that share's protocol version (underscores
/// cleaned to spaces).
pub open spec fn spec_statshares(ls: Seq<Seq<char>>, current: Option<Seq<char>>) -> Seq<
    (Seq<char>, Seq<char>),
>
    decreases ls.len(),
{
    if ls.len() == 0 {
        Seq::empty()
    } else {
        let line = ls[0];
        let t = spec_trim_ws(line);
        if line.len() >= 3 && line.subrange(0, 3) == "==="@ {
            spec_statshares(ls.drop_first(), current)
        } else if line.len() >= 3 && line.subrange(0, 3) == "---"@ {
            spec_statshares(ls.drop_first(), current)
        } else if t.len() == 0 {
            spec_statshares(ls.drop_first(), current)
        } else if t.len() >= 5 && t.subrange(0, 5) == "SHARE"@ && contains_sub(t, "ATTRIBUTE"@) {
            spec_statshares(ls.drop_first(), current)
        } else if !(line.len() > 0 && (line[0] == ' ' || line[0] == '\t')) {
            spec_statshares(ls.drop_first(), Some(t))
        } else {
            let k = crate::strings::first_sep_idx(t, ws_seps());
            if k < t.len() {
                let key = t.subrange(0, k as int);
                let value = spec_trim_ws(t.subrange(k as int + 1, t.len() as int));
                if key == "SMB_VERSION"@ && current is Some {
                    seq![(current.unwrap(), spec_underscores_to_spaces(value))] + spec_statshares(
                        ls.drop_first(),
                        current,
                    )
                } else {
                    spec_statshares(ls.drop_first(), current)
                }
            } else {
                spec_statshares(ls.drop_first(), current)
            }
        }
    }
}

/// Parse `smbutil statshares -a` output into `(share, smb_version)` records,
/// in the order the output lists them.
pub fn parse_smbutil_statshares(text: &str) -> (r: Vec<(String, String)>)
    ensures
        r@.map_values(|p: (String, String)| (p.0@, p.1@)) == spec_statshares(
            spec_lines(text@),
            None,
        ),
{
    let ls = lines(text);
    let ghost lviews = ls@.map_values(|l: String| l@);
    let mut out: Vec<(String, String)> = Vec::new();
    let mut current: Option<String> = None;
    let ghost gcur: Option<Seq<char>> = None;
    proof {
        assert(lviews.subrange(0, lviews.len() as int) =~= lviews);
        assert(out@.map_values(|p: (String, String)| (p.0@, p.1@)) + spec_statshares(
            lviews,
            gcur,
        ) =~= spec_statshares(lviews, gcur));
    }
    let n = ls.len();
    let mut i: usize = 0;
    while i < n
        invariant
            n == ls@.len(),
            i <= n,
            lviews == ls@.map_values(|l: String| l@),
            (match current {
                Some(ref c) => gcur == Some(c@),
                None => gcur is None,
            }),
            spec_statshares(lviews, None) == out@.map_values(|p: (String, String)| (p.0@, p.1@))
                + spec_statshares(lviews.subrange(i as int, n as int), gcur),
        decreases n - i,
    {
        proof {
            reveal_strlit("===");
            reveal_strlit("---");
            reveal_strlit("SHARE");
            reveal_strlit("ATTRIBUTE");
            reveal_strlit("SMB_VERSION");
            assert(lviews[i as int] == ls@[i as int]@);
            assert(lviews.subrange(i as int, n as int)[0] == lviews[i as int]);
            assert(lviews.subrange(i as int, n as int).drop_first() =~= lviews.subrange(
                i as int + 1,
                n as int,
            ));
        }
        let line = &ls[i];
        let t = trim_ws(line.as_str());
        let line_len = line.as_str().unicode_len();
        if starts_with(line.as_str(), "===") || starts_with(line.as_str(), "---") {
            // separator line
        } else if t.as_str().unicode_len() == 0 {
            // blank line
        } else if starts_with(t.as_str(), "SHARE") && crate::strings::contains_str(
            t.as_str(),
            "ATTRIBUTE",
        ) {
            // header row
        } else if !(line_len > 0 && (line.as_str().get_char(0) == ' ' || line.as_str().get_char(0)
            == '\t')) {
            current = Some(t);
            proof {
                gcur = Some(spec_trim_ws(lviews[i as int]));
            }
        } else {
            let tlen = t.as_str().unicode_len();
            let k = token_end(t.as_str());
            if k < tlen {
                let key = substring(t.as_str(), 0, k);
                let rest = substring(t.as_str(), k + 1, tlen);
                let value = trim_ws(rest.as_str());
                if str_eq(key.as_str(), "SMB_VERSION") {
                    if let Some(cur) = &current {
                        let ghost prev = out@;
                        out.push((cur.clone(), underscores_to_spaces(value.as_str())));
                        proof {
                            assert(out@.map_values(|p: (String, String)| (p.0@, p.1@)) =~= prev
                                .map_values(|p: (String, String)| (p.0@, p.1@)) + seq![
                                (out@.last().0@, out@.last().1@),
                            ]);
                        }
                    }
                }
            }
        }
        i += 1;
    }
    proof {
        assert(lviews.subrange(n as int, n as int) =~= Seq::<Seq<char>>::empty());
        assert(spec_statshares(lviews, None) =~= out@.map_values(
            |p: (String, String)| (p.0@, p.1@),
        ));
    }
    out
}

/// The index of the first whitespace character, or the length when there is
/// none.
fn token_end(s: &str) -> (r: usize)
    ensures
        r == crate::strings::first_sep_idx(s@, ws_seps()),
        r <= s@.len(),
{
    let len = s.unicode_len();
    let mut i: usize = 0;
    while i < len && !is_space(s.get_char(i))
        invariant
            len == s@.len(),
            i <= len,
            forall|j: int| 0 <= j < i ==> !ws_seps().contains(#[trigger] s@[j]),
        decreases len - i,
    {
        proof {
            assert(ws_seps().contains(s@[i as int]) == is_space_char(s@[i as int]));
        }
        i += 1;
    }
    proof {
        crate::strings::lemma_first_sep_idx(s@, ws_seps());
        if i < len {
            assert(ws_seps().contains(s@[i as int]));
        }
        let fi = crate::strings::first_sep_idx(s@, ws_seps());
        assert(!(fi < i) && !(i < fi));
    }
    i
}

/// How `networksetup -listallhardwareports` output is read: a `Hardware
/// Port:` line names a port, and the next `Device:` line binds that port to
/// a BSD device name.
pub open spec fn spec_hardware_ports(ls: Seq<Seq<char>>, current: Option<Seq<char>>) -> Seq<
    (Seq<char>, Seq<char>),
>
    decreases ls.len(),
{
    if ls.len() == 0 {
        Seq::empty()
    } else {
        let t = spec_trim_ws(ls[0]);
        if t.len() >= 14 && t.subrange(0, 14) == "Hardware Port:"@ {
            spec_hardware_ports(
                ls.drop_first(),
                Some(spec_trim_ws(t.subrange(14, t.len() as int))),
            )
        } else if t.len() >= 7 && t.subrange(0, 7) == "Device:"@ {
            let device = spec_trim_ws(t.subrange(7, t.len() as int));
            match current {
                Some(port) => seq![(device, port)] + spec_hardware_ports(ls.drop_first(), None),
                None => spec_hardware_ports(ls.drop_first(), None),
            }
        } else {
            spec_hardware_ports(ls.drop_first(), current)
        }
    }
}

/// Parse `networksetup -listallhardwareports` output into `(device, port
/// label)` records.
pub fn parse_hardware_ports(text: &str) -> (r: Vec<(String, String)>)
    ensures
        r@.map_values(|p: (String, String)| (p.0@, p.1@)) == spec_hardware_ports(
            spec_lines(text@),
            None,
        ),
{
    let ls = lines(text);
    let ghost lviews = ls@.map_values(|l: String| l@);
    let mut out: Vec<(String, String)> = Vec::new();
    let mut current: Option<String> = None;
    let ghost gcur: Option<Seq<char>> = None;
    proof {
        assert(lviews.subrange(0, lviews.len() as int) =~= lviews);
        assert(out@.map_values(|p: (String, String)| (p.0@, p.1@)) + spec_hardware_ports(
            lviews,
            gcur,
        ) =~= spec_hardware_ports(lviews, gcur));
    }
    let n = ls.len();
    let mut i: usize = 0;
    while i < n
        invariant
            n == ls@.len(),
            i <= n,
            lviews == ls@.map_values(|l: String| l@),
            (match current {
                Some(ref c) => gcur == Some(c@),
                None => gcur is None,
            }),
            spec_hardware_ports(lviews, None) == out@.map_values(
                |p: (String, String)| (p.0@, p.1@),
            ) + spec_hardware_ports(lviews.subrange(i as int, n as int), gcur),
        decreases n - i,
    {
        proof {
            reveal_strlit("Hardware Port:");
            reveal_strlit("Device:");
            assert(lviews[i as int] == ls@[i as int]@);
            assert(lviews.subrange(i as int, n as int)[0] == lviews[i as int]);
            assert(lviews.subrange(i as int, n as int).drop_first() =~= lviews.subrange(
                i as int + 1,
                n as int,
            ));
        }
        let t = trim_ws(ls[i].as_str());
        let tlen = t.as_str().unicode_len();
        if starts_with(t.as_str(), "Hardware Port:") {
            let port = trim_ws(substring(t.as_str(), 14, tlen).as_str());
            current = Some(port);
            proof {
                gcur = Some(spec_trim_ws(spec_trim_ws(lviews[i as int]).subrange(
                    14,
                    spec_trim_ws(lviews[i as int]).len() as int,
                )));
            }
        } else if starts_with(t.as_str(), "Device:") {
            let device = trim_ws(substring(t.as_str(), 7, tlen).as_str());
            if let Some(port) = current {
                let ghost prev = out@;
                out.push((device, port));
                proof {
                    assert(out@.map_values(|p: (String, String)| (p.0@, p.1@)) =~= prev.map_values(
                        |p: (String, String)| (p.0@, p.1@),
                    ) + seq![(out@.last().0@, out@.last().1@)]);
                }
            }
            current = None;
            proof {
                gcur = None;
            }
        }
        i += 1;
    }
    proof {
        assert(lviews.subrange(n as int, n as int) =~= Seq::<Seq<char>>::empty());
        assert(spec_hardware_ports(lviews, None) =~= out@.map_values(
            |p: (String, String)| (p.0@, p.1@),
        ));
    }
    out
}

/// The value bound to `k` by the latest pair that binds it, mirroring
/// insertion into a map where later writes win.
pub open spec fn spec_lookup_last(s: Seq<(Seq<char>, Seq<char>)>, k: Seq<char>) -> Option<
    Seq<char>,
>
    decreases s.len(),
{
    if s.len() == 0 {
        None
    } else if s.last().0 == k {
        Some(s.last().1)
    } else {
        spec_lookup_last(s.drop_last(), k)
    }
}

fn lookup_last(s: &Vec<(String, String)>, k: &str) -> (r: Option<String>)
    ensures
        (match r {
            Some(ref v) => spec_lookup_last(
                s@.map_values(|p: (String, String)| (p.0@, p.1@)),
                k@,
            ) == Some(v@),
            None => spec_lookup_last(s@.map_values(|p: (String, String)| (p.0@, p.1@)), k@)
                is None,
        }),
{
    let ghost views = s@.map_values(|p: (String, String)| (p.0@, p.1@));
    let n = s.len();
    proof {
        assert(views.subrange(0, n as int) =~= views);
    }
    let mut i: usize = n;
    while i > 0
        invariant
            n == s@.len(),
            i <= n,
            views == s@.map_values(|p: (String, String)| (p.0@, p.1@)),
            spec_lookup_last(views, k@) == spec_lookup_last(
                views.subrange(0, i as int),
                k@,
            ),
        decreases i,
    {
        proof {
            assert(views.subrange(0, i as int).last() == views[i - 1]);
            assert(views.subrange(0, i as int).drop_last() =~= views.subrange(0, i as int - 1));
        }
        if str_eq(s[i - 1].0.as_str(), k) {
            return Some(s[i - 1].1.clone());
        }
        i -= 1;
    }
    proof {
        assert(views.subrange(0, 0) =~= Seq::<(Seq<char>, Seq<char>)>::empty());
    }
    None
}

/// A currently mounted SMB share with connection details.
#[derive(Debug, Clone, PartialEq)]
pub struct MountedShare {
    pub server: String,
    pub share: String,
    pub mount_point: String,
    pub interface: Option<String>,
    pub interface_label: Option<String>,
    pub smb_version: Option<String>,
}

/// Join the parsed mount table with the per-share SMB versions and the
/// per-server route information into mounted-share records. `routes` binds a
/// server name to the interface the route to it uses and that interface's
/// hardware label; the first binding for a server wins.
pub fn discover_mounted_shares(
    mounts: &Vec<(String, String, String)>,
    versions: &Vec<(String, String)>,
    routes: &Vec<(String, Option<String>, Option<String>)>,
) -> (r: Vec<MountedShare>)
    ensures
        r@.len() == mounts@.len(),
        forall|i: int|
            0 <= i < mounts@.len() ==> {
                let m = #[trigger] r@[i];
                &&& m.server == mounts@[i].0
                &&& m.share == mounts@[i].1
                &&& m.mount_point == mounts@[i].2
                &&& (match m.smb_version {
                    Some(ref v) => spec_lookup_last(
                        versions@.map_values(|p: (String, String)| (p.0@, p.1@)),
                        mounts@[i].1@,
                    ) == Some(v@),
                    None => spec_lookup_last(
                        versions@.map_values(|p: (String, String)| (p.0@, p.1@)),
                        mounts@[i].1@,
                    ) is None,
                })
            },
{
    let mut out: Vec<MountedShare> = Vec::new();
    let n = mounts.len();
    let mut i: usize = 0;
    while i < n
        invariant
            n == mounts@.len(),
            i <= n,
            out@.len() == i,
            forall|j: int|
                0 <= j < i ==> {
                    let m = #[trigger] out@[j];
                    &&& m.server == mounts@[j].0
                    &&& m.share == mounts@[j].1
                    &&& m.mount_point == mounts@[j].2
                    &&& (match m.smb_version {
                        Some(ref v) => spec_lookup_last(
                            versions@.map_values(|p: (String, String)| (p.0@, p.1@)),
                            mounts@[j].1@,
                        ) == Some(v@),
                        None => spec_lookup_last(
                            versions@.map_values(|p: (String, String)| (p.0@, p.1@)),
                            mounts@[j].1@,
                        ) is None,
                    })
                },
        decreases n - i,
    {
        let smb_version = lookup_last(versions, mounts[i].1.as_str());
        let (interface, interface_label) = route_for(routes, mounts[i].0.as_str());
        out.push(
            MountedShare {
                server: mounts[i].0.clone(),
                share: mounts[i].1.clone(),
                mount_point: mounts[i].2.clone(),
                interface,
                interface_label,
                smb_version,
            },
        );
        i += 1;
    }
    out
}

/// The interface and label recorded for a server, from the first route entry
/// whose server name matches; nothing when no entry matches.
fn route_for(routes: &Vec<(String, Option<String>, Option<String>)>, server: &str) -> (r: (
    Option<String>,
    Option<String>,
))
    ensures
        (exists|i: int| 0 <= i < routes@.len() && (#[trigger] routes@[i]).0@ == server@) ==> {
            let i = first_route_idx(routes@, server@);
            0 <= i < routes@.len() && r.0 == routes@[i].1 && r.1 == routes@[i].2
        },
        (forall|i: int| 0 <= i < routes@.len() ==> (#[trigger] routes@[i]).0@ != server@) ==> r.0
            is None && r.1 is None,
{
    let n = routes.len();
    let mut i: usize = 0;
    while i < n
        invariant
            n == routes@.len(),
            i <= n,
            forall|j: int| 0 <= j < i ==> (#[trigger] routes@[j]).0@ != server@,
        decreases n - i,
    {
        if str_eq(routes[i].0.as_str(), server) {
            proof {
                lemma_first_route_idx(routes@, server@, i as int);
            }
            return (
                crate::engine::clone_opt_string(&routes[i].1),
                crate::engine::clone_opt_string(&routes[i].2),
            );
        }
        i += 1;
    }
    (None, None)
}

/// The index of the first route entry for a server.
pub open spec fn first_route_idx(
    routes: Seq<(String, Option<String>, Option<String>)>,
    server: Seq<char>,
) -> int
    decreases routes.len(),
{
    if routes.len() == 0 {
        0
    } else if routes[0].0@ == server {
        0
    } else {
        1 + first_route_idx(routes.drop_first(), server)
    }
}

proof fn lemma_first_route_idx(
    routes: Seq<(String, Option<String>, Option<String>)>,
    server: Seq<char>,
    i: int,
)
    requires
        0 <= i < routes.len(),
        routes[i].0@ == server,
        forall|j: int| 0 <= j < i ==> (#[trigger] routes[j]).0@ != server,
    ensures
        first_route_idx(routes, server) == i,
    decreases routes.len(),
{
    if i > 0 {
        assert forall|j: int| 0 <= j < i - 1 implies (#[trigger] routes.drop_first()[j]).0@
            != server by {
            assert(routes.drop_first()[j] == routes[j + 1]);
        }
        assert(routes.drop_first()[i - 1] == routes[i]);
        lemma_first_route_idx(routes.drop_first(), server, i - 1);
    }
}

} // verus!
