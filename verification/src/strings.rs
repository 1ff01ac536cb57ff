//! Verified helpers for the string work the rest of the crate needs:
//! equality, ASCII case folding, substring search, blank detection, prefix
//! and suffix handling, and rendering integers as decimal strings.

use vstd::prelude::*;

verus! {

/// ASCII lower-casing of a single character: 'A'..'Z' map to 'a'..'z',
/// everything else is unchanged.
pub open spec fn lower_char(c: char) -> char {
    if 'A' <= c && c <= 'Z' {
        (c as u8 + 32) as char
    } else {
        c
    }
}

/// ASCII lower-casing of a character sequence.
pub open spec fn lower_seq(s: Seq<char>) -> Seq<char> {
    s.map_values(|c: char| lower_char(c))
}

/// Two character sequences are equal up to ASCII case.
pub open spec fn eq_ignore_case(a: Seq<char>, b: Seq<char>) -> bool {
    lower_seq(a) == lower_seq(b)
}

/// The needle `n` occurs in the haystack `h` starting at offset `k`.
pub open spec fn has_sub_at(h: Seq<char>, n: Seq<char>, k: int) -> bool {
    0 <= k && k + n.len() <= h.len() && h.subrange(k, k + n.len()) == n
}

/// The needle `n` occurs somewhere in the haystack `h`.
pub open spec fn contains_sub(h: Seq<char>, n: Seq<char>) -> bool {
    exists|k: int| has_sub_at(h, n, k)
}

/// Every character is an ASCII whitespace character, as `str::trim` would
/// remove it.
pub open spec fn is_blank_seq(s: Seq<char>) -> bool {
    forall|i: int| 0 <= i < s.len() ==> is_space_char(#[trigger] s[i])
}

pub open spec fn is_space_char(c: char) -> bool {
    c == ' ' || c == '\t' || c == '\n' || c == '\r'
}

/// String equality as a plain boolean.
pub fn str_eq(a: &str, b: &str) -> (r: bool)
    ensures
        r == (a@ == b@),
{
    let sa = a.to_owned();
    let sb = b.to_owned();
    sa == sb
}

/// ASCII lower-casing of one character.
pub fn lower_char_exec(c: char) -> (r: char)
    ensures
        r == lower_char(c),
{
    let u = c as u32;
    if 65 <= u && u <= 90 {
        ((u as u8) + 32) as char
    } else {
        c
    }
}

/// Case-insensitive (ASCII) string equality.
pub fn eq_ignore_ascii_case(a: &str, b: &str) -> (r: bool)
    ensures
        r == eq_ignore_case(a@, b@),
{
    let alen = a.unicode_len();
    let blen = b.unicode_len();
    if alen != blen {
        proof {
            assert(lower_seq(a@).len() != lower_seq(b@).len());
        }
        return false;
    }
    let mut i: usize = 0;
    while i < alen
        invariant
            i <= alen,
            alen == a@.len(),
            alen == b@.len(),
            forall|j: int| 0 <= j < i ==> lower_seq(a@)[j] == lower_seq(b@)[j],
        decreases alen - i,
    {
        let ca = lower_char_exec(a.get_char(i));
        let cb = lower_char_exec(b.get_char(i));
        if ca != cb {
            proof {
                assert(lower_seq(a@)[i as int] != lower_seq(b@)[i as int]);
            }
            return false;
        }
        i += 1;
    }
    proof {
        assert(lower_seq(a@) =~= lower_seq(b@));
    }
    true
}

/// Whether the needle occurs in the haystack, comparing characters after
/// ASCII lower-casing both sides.
pub fn contains_ignore_ascii_case(h: &str, n: &str) -> (r: bool)
    ensures
        r == contains_sub(lower_seq(h@), lower_seq(n@)),
{
    contains_lowered(h, n, true)
}

/// Whether the needle occurs in the haystack.
pub fn contains_str(h: &str, n: &str) -> (r: bool)
    ensures
        r == contains_sub(h@, n@),
{
    contains_lowered(h, n, false)
}

/// One implementation behind the two substring searches: when `fold` is set
/// both sides are compared after ASCII lower-casing.
fn contains_lowered(h: &str, n: &str, fold: bool) -> (r: bool)
    ensures
        fold ==> r == contains_sub(lower_seq(h@), lower_seq(n@)),
        !fold ==> r == contains_sub(h@, n@),
{
    let ghost hs: Seq<char> = if fold {
        lower_seq(h@)
    } else {
        h@
    };
    let ghost ns: Seq<char> = if fold {
        lower_seq(n@)
    } else {
        n@
    };
    let hlen = h.unicode_len();
    let nlen = n.unicode_len();
    if nlen > hlen {
        proof {
            assert(forall|k: int| !has_sub_at(hs, ns, k));
        }
        return false;
    }
    let mut k: usize = 0;
    while k <= hlen - nlen
        invariant
            hs.len() == hlen,
            ns.len() == nlen,
            h@.len() == hlen,
            n@.len() == nlen,
            fold ==> hs == lower_seq(h@) && ns == lower_seq(n@),
            !fold ==> hs == h@ && ns == n@,
            nlen <= hlen,
            k <= hlen - nlen + 1,
            forall|kk: int| 0 <= kk < k ==> !has_sub_at(hs, ns, kk),
        decreases hlen - nlen - k + 1,
    {
        let mut j: usize = 0;
        let mut matches = true;
        while j < nlen && matches
            invariant
                hs.len() == hlen,
                ns.len() == nlen,
                h@.len() == hlen,
                n@.len() == nlen,
                fold ==> hs == lower_seq(h@) && ns == lower_seq(n@),
                !fold ==> hs == h@ && ns == n@,
                nlen <= hlen,
                k <= hlen - nlen,
                j <= nlen,
                matches ==> forall|jj: int| 0 <= jj < j ==> hs[k + jj] == ns[jj],
                !matches ==> exists|jj: int| 0 <= jj < nlen && hs[k + jj] != ns[jj],
            decreases nlen - j, (if matches { 1int } else { 0int }),
        {
            let ch = if fold {
                lower_char_exec(h.get_char(k + j))
            } else {
                h.get_char(k + j)
            };
            let cn = if fold {
                lower_char_exec(n.get_char(j))
            } else {
                n.get_char(j)
            };
            if ch != cn {
                matches = false;
                proof {
                    assert(hs[k + j] != ns[j as int]);
                }
            } else {
                j += 1;
            }
        }
        if matches {
            proof {
                assert(hs.subrange(k as int, k + ns.len()) =~= ns);
                assert(has_sub_at(hs, ns, k as int));
            }
            return true;
        }
        proof {
            let jj = choose|jj: int| 0 <= jj < nlen && hs[k + jj] != ns[jj];
            assert(hs.subrange(k as int, k + ns.len())[jj] == hs[k + jj]);
            assert(!has_sub_at(hs, ns, k as int));
        }
        k += 1;
    }
    proof {
        assert(forall|kk: int| !has_sub_at(hs, ns, kk));
    }
    false
}

/// Whether the string consists only of ASCII whitespace (this includes the
/// empty string). Validation treats such names as empty.
pub fn is_blank(s: &str) -> (r: bool)
    ensures
        r == is_blank_seq(s@),
{
    let len = s.unicode_len();
    let mut i: usize = 0;
    while i < len
        invariant
            i <= len,
            len == s@.len(),
            forall|j: int| 0 <= j < i ==> is_space_char(#[trigger] s@[j]),
        decreases len - i,
    {
        let c = s.get_char(i);
        if !(c == ' ' || c == '\t' || c == '\n' || c == '\r') {
            return false;
        }
        i += 1;
    }
    true
}

/// Whether `s` starts with the prefix `p`.
pub fn starts_with(s: &str, p: &str) -> (r: bool)
    ensures
        r == (s@.len() >= p@.len() && s@.subrange(0, p@.len() as int) == p@),
{
    let slen = s.unicode_len();
    let plen = p.unicode_len();
    if plen > slen {
        return false;
    }
    let mut i: usize = 0;
    while i < plen
        invariant
            i <= plen,
            plen == p@.len(),
            slen == s@.len(),
            plen <= slen,
            forall|j: int| 0 <= j < i ==> s@[j] == p@[j],
        decreases plen - i,
    {
        if s.get_char(i) != p.get_char(i) {
            proof {
                assert(s@.subrange(0, p@.len() as int)[i as int] != p@[i as int]);
            }
            return false;
        }
        i += 1;
    }
    proof {
        assert(s@.subrange(0, p@.len() as int) =~= p@);
    }
    true
}

/// The characters of `s` from `from` (inclusive) to `to` (exclusive), as an
/// owned string.
pub fn substring(s: &str, from: usize, to: usize) -> (r: String)
    requires
        from <= to <= s@.len(),
    ensures
        r@ == s@.subrange(from as int, to as int),
{
    s.substring_char(from, to).to_owned()
}

/// The decimal rendering of a natural number, most significant digit first.
pub open spec fn dec_str(n: nat) -> Seq<char>
    decreases n,
{
    if n < 10 {
        seq![digit_char(n)]
    } else {
        dec_str(n / 10) + seq![digit_char(n % 10)]
    }
}

pub open spec fn digit_char(d: nat) -> char {
    (0x30 + (d % 10)) as u8 as char
}

/// Append the decimal rendering of `n` to `out`.
pub fn push_u64(out: &mut String, n: u64)
    ensures
        final(out)@ == old(out)@ + dec_str(n as nat),
    decreases n,
{
    if n >= 10 {
        push_u64(out, n / 10);
    }
    let d = (n % 10) as u8;
    out.append(digit_str(d));
}

/// The decimal rendering of `n` as an owned string.
pub fn u64_to_string(n: u64) -> (r: String)
    ensures
        r@ == dec_str(n as nat),
{
    let mut out = String::new();
    push_u64(&mut out, n);
    proof {
        assert(out@ =~= dec_str(n as nat));
    }
    out
}

/// A one-character string for the decimal digit `d`.
fn digit_str(d: u8) -> (r: &'static str)
    requires
        d < 10,
    ensures
        r@ == seq![digit_char(d as nat)],
{
    let r: &'static str = match d {
        0 => "0",
        1 => "1",
        2 => "2",
        3 => "3",
        4 => "4",
        5 => "5",
        6 => "6",
        7 => "7",
        8 => "8",
        _ => "9",
    };
    proof {
        reveal_strlit("0");
        reveal_strlit("1");
        reveal_strlit("2");
        reveal_strlit("3");
        reveal_strlit("4");
        reveal_strlit("5");
        reveal_strlit("6");
        reveal_strlit("7");
        reveal_strlit("8");
        reveal_strlit("9");
        assert(r@ =~= seq![digit_char(d as nat)]);
    }
    r
}

/// The index of the first separator character in `s`, or `s.len()` when none
/// occurs.
pub open spec fn first_sep_idx(s: Seq<char>, seps: Seq<char>) -> nat
    decreases s.len(),
{
    if s.len() == 0 {
        0
    } else if seps.contains(s[0]) {
        0
    } else {
        1 + first_sep_idx(s.drop_first(), seps)
    }
}

pub proof fn lemma_first_sep_idx(s: Seq<char>, seps: Seq<char>)
    ensures
        first_sep_idx(s, seps) <= s.len(),
        forall|j: int| 0 <= j < first_sep_idx(s, seps) ==> !seps.contains(#[trigger] s[j]),
        first_sep_idx(s, seps) < s.len() ==> seps.contains(s[first_sep_idx(s, seps) as int]),
    decreases s.len(),
{
    if s.len() > 0 && !seps.contains(s[0]) {
        lemma_first_sep_idx(s.drop_first(), seps);
        assert forall|j: int| 0 <= j < first_sep_idx(s, seps) implies !seps.contains(
            #[trigger] s[j],
        ) by {
            if j > 0 {
                assert(s.drop_first()[j - 1] == s[j]);
            }
        }
    }
}

/// `s` divided at every separator character: the separators are dropped and
/// the pieces between them are kept, empty pieces included.
pub open spec fn spec_split(s: Seq<char>, seps: Seq<char>) -> Seq<Seq<char>>
    decreases s.len(),
{
    let i = first_sep_idx(s, seps);
    if i >= s.len() {
        seq![s]
    } else {
        seq![s.subrange(0, i as int)] + spec_split(
            s.subrange(i as int + 1, s.len() as int),
            seps,
        )
    }
}

/// Split `s` at every occurrence of any character of `seps`.
pub fn split_on(s: &str, seps: &str) -> (r: Vec<String>)
    ensures
        r@.map_values(|p: String| p@) == spec_split(s@, seps@),
{
    let len = s.unicode_len();
    let mut out: Vec<String> = Vec::new();
    proof {
        assert(s@.subrange(0, len as int) =~= s@);
        assert(out@.map_values(|p: String| p@) =~= Seq::<Seq<char>>::empty());
        assert(out@.map_values(|p: String| p@) + spec_split(s@, seps@) =~= spec_split(s@, seps@));
    }
    let mut start: usize = 0;
    let mut i: usize = 0;
    while i < len
        invariant
            len == s@.len(),
            start <= i <= len,
            forall|j: int| start <= j < i ==> !seps@.contains(#[trigger] s@[j]),
            spec_split(s@, seps@) == out@.map_values(|p: String| p@) + spec_split(
                s@.subrange(start as int, len as int),
                seps@,
            ),
        decreases len - i,
    {
        let c = s.get_char(i);
        if char_in(seps, c) {
            let piece = substring(s, start, i);
            proof {
                let rest = s@.subrange(start as int, len as int);
                lemma_first_sep_chunk(rest, seps@, (i - start) as int);
                assert(rest.subrange(0, i - start) =~= s@.subrange(start as int, i as int));
                assert(rest.subrange(i - start + 1, rest.len() as int) =~= s@.subrange(
                    i as int + 1,
                    len as int,
                ));
                assert((out@ + seq![piece]).map_values(|p: String| p@) =~= out@.map_values(
                    |p: String| p@,
                ) + seq![piece@]);
            }
            out.push(piece);
            i += 1;
            start = i;
        } else {
            i += 1;
        }
    }
    let piece = substring(s, start, len);
    proof {
        let rest = s@.subrange(start as int, len as int);
        lemma_first_sep_none(rest, seps@);
        assert((out@ + seq![piece]).map_values(|p: String| p@) =~= out@.map_values(
            |p: String| p@,
        ) + seq![piece@]);
    }
    out.push(piece);
    out
}

/// When the first `k` characters are not separators and the character at `k`
/// is one, the split is the piece before `k` followed by the split of what
/// comes after it.
pub(crate) proof fn lemma_first_sep_chunk(s: Seq<char>, seps: Seq<char>, k: int)
    requires
        0 <= k < s.len(),
        forall|j: int| 0 <= j < k ==> !seps.contains(#[trigger] s[j]),
        seps.contains(s[k]),
    ensures
        first_sep_idx(s, seps) == k,
        spec_split(s, seps) == seq![s.subrange(0, k)] + spec_split(
            s.subrange(k + 1, s.len() as int),
            seps,
        ),
    decreases s.len(),
{
    if k > 0 {
        assert forall|j: int| 0 <= j < k - 1 implies !seps.contains(
            #[trigger] s.drop_first()[j],
        ) by {
            assert(s.drop_first()[j] == s[j + 1]);
        }
        assert(s.drop_first()[k - 1] == s[k]);
        lemma_first_sep_chunk(s.drop_first(), seps, k - 1);
    }
}

/// When no character is a separator, the split is the whole string alone.
pub(crate) proof fn lemma_first_sep_none(s: Seq<char>, seps: Seq<char>)
    requires
        forall|j: int| 0 <= j < s.len() ==> !seps.contains(#[trigger] s[j]),
    ensures
        first_sep_idx(s, seps) == s.len(),
        spec_split(s, seps) == seq![s],
    decreases s.len(),
{
    if s.len() > 0 {
        assert forall|j: int| 0 <= j < s.drop_first().len() implies !seps.contains(
            #[trigger] s.drop_first()[j],
        ) by {
            assert(s.drop_first()[j] == s[j + 1]);
        }
        lemma_first_sep_none(s.drop_first(), seps);
    }
}

/// Whether `c` occurs in `seps`.
pub fn char_in(seps: &str, c: char) -> (r: bool)
    ensures
        r == seps@.contains(c),
{
    let len = seps.unicode_len();
    let mut i: usize = 0;
    while i < len
        invariant
            i <= len,
            len == seps@.len(),
            forall|j: int| 0 <= j < i ==> seps@[j] != c,
        decreases len - i,
    {
        if seps.get_char(i) == c {
            return true;
        }
        i += 1;
    }
    proof {
        assert(!seps@.contains(c));
    }
    false
}

/// A line with a trailing carriage return removed.
pub open spec fn spec_strip_cr(l: Seq<char>) -> Seq<char> {
    if l.len() > 0 && l.last() == '\r' {
        l.drop_last()
    } else {
        l
    }
}

/// The lines of a text, as `str::lines` yields them: split at every newline,
/// a trailing empty piece dropped, and a carriage return at the end of each
/// line removed.
pub open spec fn spec_lines(s: Seq<char>) -> Seq<Seq<char>> {
    if s.len() == 0 {
        Seq::empty()
    } else {
        let parts = spec_split(s, seq!['\n']);
        let kept = if parts.last().len() == 0 {
            parts.drop_last()
        } else {
            parts
        };
        kept.map_values(|l: Seq<char>| spec_strip_cr(l))
    }
}

fn strip_cr(l: &str) -> (r: String)
    ensures
        r@ == spec_strip_cr(l@),
{
    let len = l.unicode_len();
    if len > 0 && l.get_char(len - 1) == '\r' {
        let r = substring(l, 0, len - 1);
        proof {
            assert(l@.subrange(0, len - 1) =~= l@.drop_last());
        }
        r
    } else {
        l.to_owned()
    }
}

/// The lines of a text.
pub fn lines(s: &str) -> (r: Vec<String>)
    ensures
        r@.map_values(|l: String| l@) == spec_lines(s@),
{
    if s.unicode_len() == 0 {
        let r: Vec<String> = Vec::new();
        proof {
            assert(r@.map_values(|l: String| l@) =~= spec_lines(s@));
        }
        return r;
    }
    proof {
        reveal_strlit("\n");
        assert("\n"@ =~= seq!['\n']);
    }
    let mut parts = split_on(s, "\n");
    let ghost all = spec_split(s@, seq!['\n']);
    proof {
        assert(all.len() > 0);
        assert(parts@.map_values(|p: String| p@).len() == all.len());
    }
    let plen = parts.len();
    if parts[plen - 1].as_str().unicode_len() == 0 {
        proof {
            assert(parts@.map_values(|p: String| p@)[plen - 1] == all.last());
        }
        parts.pop();
        proof {
            assert(parts@.map_values(|p: String| p@) =~= all.drop_last());
        }
    }
    let ghost kept = if all.last().len() == 0 {
        all.drop_last()
    } else {
        all
    };
    let mut out: Vec<String> = Vec::new();
    let n = parts.len();
    let mut i: usize = 0;
    while i < n
        invariant
            n == parts@.len(),
            i <= n,
            parts@.map_values(|p: String| p@) == kept,
            out@.map_values(|l: String| l@) =~= kept.map_values(
                |l: Seq<char>| spec_strip_cr(l),
            ).subrange(0, i as int),
        decreases n - i,
    {
        let stripped = strip_cr(parts[i].as_str());
        proof {
            assert(parts@.map_values(|p: String| p@)[i as int] == kept[i as int]);
        }
        let ghost prev = out@;
        out.push(stripped);
        proof {
            assert(out@.map_values(|l: String| l@) =~= prev.map_values(|l: String| l@).push(
                spec_strip_cr(kept[i as int]),
            ));
            assert(out@.map_values(|l: String| l@) =~= kept.map_values(
                |l: Seq<char>| spec_strip_cr(l),
            ).subrange(0, i as int + 1));
        }
        i += 1;
    }
    proof {
        assert(kept.map_values(|l: Seq<char>| spec_strip_cr(l)).subrange(
            0,
            n as int,
        ) =~= kept.map_values(|l: Seq<char>| spec_strip_cr(l)));
    }
    out
}

/// A string with leading ASCII whitespace removed.
pub open spec fn spec_trim_leading_ws(s: Seq<char>) -> Seq<char>
    decreases s.len(),
{
    if s.len() > 0 && is_space_char(s[0]) {
        spec_trim_leading_ws(s.drop_first())
    } else {
        s
    }
}

/// A string with trailing ASCII whitespace removed.
pub open spec fn spec_trim_trailing_ws(s: Seq<char>) -> Seq<char>
    decreases s.len(),
{
    if s.len() > 0 && is_space_char(s[s.len() - 1]) {
        spec_trim_trailing_ws(s.drop_last())
    } else {
        s
    }
}

/// A string with surrounding ASCII whitespace removed.
pub open spec fn spec_trim_ws(s: Seq<char>) -> Seq<char> {
    spec_trim_trailing_ws(spec_trim_leading_ws(s))
}

proof fn lemma_trim_leading_ws_fixed(s: Seq<char>)
    ensures
        (s.len() == 0 || !is_space_char(s[0])) ==> spec_trim_leading_ws(s) == s,
{
}

proof fn lemma_trim_trailing_ws_fixed(s: Seq<char>)
    ensures
        (s.len() == 0 || !is_space_char(s[s.len() - 1])) ==> spec_trim_trailing_ws(s) == s,
{
}

/// Remove surrounding ASCII whitespace.
pub fn trim_ws(s: &str) -> (r: String)
    ensures
        r@ == spec_trim_ws(s@),
{
    let len = s.unicode_len();
    proof {
        assert(s@.subrange(0, len as int) =~= s@);
    }
    let mut from: usize = 0;
    while from < len && is_space(s.get_char(from))
        invariant
            len == s@.len(),
            from <= len,
            spec_trim_leading_ws(s@) == spec_trim_leading_ws(
                s@.subrange(from as int, len as int),
            ),
        decreases len - from,
    {
        proof {
            assert(s@.subrange(from as int, len as int).drop_first() =~= s@.subrange(
                from as int + 1,
                len as int,
            ));
        }
        from += 1;
    }
    let ghost m: Seq<char> = spec_trim_leading_ws(s@);
    proof {
        lemma_trim_leading_ws_fixed(s@.subrange(from as int, len as int));
        assert(m == s@.subrange(from as int, len as int));
    }
    let mut to: usize = len;
    while to > from && is_space(s.get_char(to - 1))
        invariant
            len == s@.len(),
            from <= to <= len,
            spec_trim_trailing_ws(m) == spec_trim_trailing_ws(
                s@.subrange(from as int, to as int),
            ),
        decreases to,
    {
        proof {
            assert(s@.subrange(from as int, to as int).drop_last() =~= s@.subrange(
                from as int,
                to as int - 1,
            ));
        }
        to -= 1;
    }
    proof {
        lemma_trim_trailing_ws_fixed(s@.subrange(from as int, to as int));
    }
    substring(s, from, to)
}

/// Whether `c` is an ASCII whitespace character.
pub fn is_space(c: char) -> (r: bool)
    ensures
        r == is_space_char(c),
{
    c == ' ' || c == '\t' || c == '\n' || c == '\r'
}

/// The first occurrence of `n` in `h`, if any.
pub fn find_str(h: &str, n: &str) -> (r: Option<usize>)
    ensures
        match r {
            Some(k) => has_sub_at(h@, n@, k as int) && forall|kk: int|
                0 <= kk < k ==> !has_sub_at(h@, n@, kk),
            None => !contains_sub(h@, n@),
        },
{
    let hlen = h.unicode_len();
    let nlen = n.unicode_len();
    if nlen > hlen {
        proof {
            assert(forall|k: int| !has_sub_at(h@, n@, k));
        }
        return None;
    }
    let mut k: usize = 0;
    while k <= hlen - nlen
        invariant
            hlen == h@.len(),
            nlen == n@.len(),
            nlen <= hlen,
            k <= hlen - nlen + 1,
            forall|kk: int| 0 <= kk < k ==> !has_sub_at(h@, n@, kk),
        decreases hlen - nlen - k + 1,
    {
        let mut j: usize = 0;
        let mut matches = true;
        while j < nlen && matches
            invariant
                hlen == h@.len(),
                nlen == n@.len(),
                nlen <= hlen,
                k <= hlen - nlen,
                j <= nlen,
                matches ==> forall|jj: int| 0 <= jj < j ==> h@[k + jj] == n@[jj],
                !matches ==> exists|jj: int| 0 <= jj < nlen && h@[k + jj] != n@[jj],
            decreases nlen - j, (if matches { 1int } else { 0int }),
        {
            if h.get_char(k + j) != n.get_char(j) {
                matches = false;
            } else {
                j += 1;
            }
        }
        if matches {
            proof {
                assert(h@.subrange(k as int, k + n@.len()) =~= n@);
            }
            return Some(k);
        }
        proof {
            let jj = choose|jj: int| 0 <= jj < nlen && h@[k + jj] != n@[jj];
            assert(h@.subrange(k as int, k + n@.len())[jj] == h@[k + jj]);
            assert(!has_sub_at(h@, n@, k as int));
        }
        k += 1;
    }
    proof {
        assert(forall|kk: int| !has_sub_at(h@, n@, kk));
    }
    None
}

/// The decimal rendering of a signed number: a minus sign for negatives,
/// then the digits of its magnitude.
pub open spec fn dec_str_signed(n: int) -> Seq<char> {
    if n >= 0 {
        dec_str(n as nat)
    } else {
        seq!['-'] + dec_str((-n) as nat)
    }
}

/// The decimal rendering of an `i32` as an owned string.
pub fn i32_to_string(n: i32) -> (r: String)
    ensures
        r@ == dec_str_signed(n as int),
{
    if n >= 0 {
        u64_to_string(n as u64)
    } else {
        let wide: i64 = n as i64;
        let mag: u64 = (-wide) as u64;
        let mut out = "-".to_owned();
        out.append(u64_to_string(mag).as_str());
        proof {
            reveal_strlit("-");
            assert("-"@ =~= seq!['-']);
            assert(out@ =~= dec_str_signed(n as int));
        }
        out
    }
}

/// The string holds no newline character, so it can stand on one line of a
/// rendered file.
pub open spec fn no_newline(s: Seq<char>) -> bool {
    forall|i: int| 0 <= i < s.len() ==> s[i] != '\n'
}

} // verus!
