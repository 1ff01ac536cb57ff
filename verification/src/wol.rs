//! Wake-on-LAN packet assembly: parsing a MAC address and building the
//! magic packet. Sending the packet is a network effect and happens outside
//! this crate.

use vstd::prelude::*;

use crate::strings::{spec_split, split_on, u64_to_string};

verus! {

/// The value of one hexadecimal digit.
pub open spec fn spec_hex_digit(c: char) -> Option<nat> {
    let u = c as u32;
    if 48 <= u && u <= 57 {
        Some((u - 48) as nat)
    } else if 97 <= u && u <= 102 {
        Some((u - 87) as nat)
    } else if 65 <= u && u <= 70 {
        Some((u - 55) as nat)
    } else {
        None
    }
}

/// The value of a hexadecimal digit string folded onto an accumulator; the
/// result is meaningful only when every character is a digit.
pub open spec fn spec_hex_fold(s: Seq<char>, acc: nat) -> Option<nat>
    decreases s.len(),
{
    if s.len() == 0 {
        Some(acc)
    } else {
        match spec_hex_digit(s[0]) {
            Some(d) => spec_hex_fold(s.drop_first(), acc * 16 + d),
            None => None,
        }
    }
}

/// A hexadecimal octet as `u8::from_str_radix` reads it: an optional leading
/// `+`, then at least one hexadecimal digit, with a value below 256.
pub open spec fn spec_parse_hex_u8(s: Seq<char>) -> Option<u8> {
    let body = if s.len() > 0 && s[0] == '+' {
        s.drop_first()
    } else {
        s
    };
    if body.len() == 0 {
        None
    } else {
        match spec_hex_fold(body, 0) {
            Some(v) => if v < 256 {
                Some(v as u8)
            } else {
                None
            },
            None => None,
        }
    }
}

/// Folding more digits never lowers the value.
proof fn lemma_hex_fold_monotone(s: Seq<char>, acc: nat)
    ensures
        spec_hex_fold(s, acc) matches Some(v) ==> v >= acc,
    decreases s.len(),
{
    if s.len() > 0 {
        match spec_hex_digit(s[0]) {
            Some(d) => {
                lemma_hex_fold_monotone(s.drop_first(), acc * 16 + d);
            },
            None => {},
        }
    }
}

/// Parse one hexadecimal octet.
fn parse_hex_u8(s: &str) -> (r: Option<u8>)
    ensures
        r == spec_parse_hex_u8(s@),
{
    let len = s.unicode_len();
    let mut i: usize = 0;
    if len > 0 && s.get_char(0) == '+' {
        i = 1;
    }
    let ghost body: Seq<char> = s@.subrange(i as int, len as int);
    proof {
        if i == 0 {
            assert(body =~= s@);
        } else {
            assert(body =~= s@.drop_first());
        }
    }
    if i == len {
        return None;
    }
    let mut acc: u32 = 0;
    let mut j: usize = i;
    while j < len
        invariant
            i <= j <= len,
            len == s@.len(),
            body == s@.subrange(i as int, len as int),
            body.len() > 0,
            acc < 256,
            spec_hex_fold(body, 0) == spec_hex_fold(
                s@.subrange(j as int, len as int),
                acc as nat,
            ),
            spec_parse_hex_u8(s@) == (match spec_hex_fold(body, 0) {
                Some(v) => if v < 256 {
                    Some(v as u8)
                } else {
                    None
                },
                None => None::<u8>,
            }),
        decreases len - j,
    {
        let c = s.get_char(j);
        let u = c as u32;
        let d: u32 = if 48 <= u && u <= 57 {
            u - 48
        } else if 97 <= u && u <= 102 {
            u - 87
        } else if 65 <= u && u <= 70 {
            u - 55
        } else {
            proof {
                assert(s@.subrange(j as int, len as int)[0] == s@[j as int]);
                assert(spec_hex_digit(s@[j as int]) is None);
            }
            return None;
        };
        proof {
            assert(s@.subrange(j as int, len as int)[0] == s@[j as int]);
            assert(spec_hex_digit(s@[j as int]) == Some(d as nat));
            assert(s@.subrange(j as int, len as int).drop_first() =~= s@.subrange(
                j as int + 1,
                len as int,
            ));
        }
        acc = acc * 16 + d;
        if acc >= 256 {
            proof {
                lemma_hex_fold_monotone(s@.subrange(j as int + 1, len as int), acc as nat);
            }
            return None;
        }
        j += 1;
        proof {
            assert(spec_hex_fold(body, 0) == spec_hex_fold(
                s@.subrange(j as int, len as int),
                acc as nat,
            ));
        }
    }
    proof {
        assert(s@.subrange(len as int, len as int) =~= Seq::<char>::empty());
        assert(spec_hex_fold(body, 0) == Some(acc as nat));
    }
    Some(acc as u8)
}

/// The MAC separator characters: `:` and `-`.
pub open spec fn mac_seps() -> Seq<char> {
    seq![':', '-']
}

/// A MAC address parsed into its six octets: six separator-delimited groups,
/// each a valid hexadecimal octet.
pub open spec fn spec_parse_mac(s: Seq<char>) -> Option<Seq<u8>> {
    let parts = spec_split(s, mac_seps());
    if parts.len() != 6 {
        None
    } else if forall|k: int| 0 <= k < 6 ==> spec_parse_hex_u8(#[trigger] parts[k]) is Some {
        Some(Seq::new(6, |k: int| spec_parse_hex_u8(parts[k]).unwrap()))
    } else {
        None
    }
}

/// Parse a MAC address string (colon or hyphen separated) into 6 bytes.
pub fn parse_mac(mac: &str) -> (r: Result<Vec<u8>, String>)
    ensures
        r is Ok <==> spec_parse_mac(mac@) is Some,
        r matches Ok(v) ==> Some(v@) == spec_parse_mac(mac@),
{
    proof {
        reveal_strlit(":-");
        assert(":-"@ =~= mac_seps());
    }
    let parts = split_on(mac, ":-");
    let ghost pviews = parts@.map_values(|p: String| p@);
    proof {
        assert(pviews == spec_split(mac@, mac_seps()));
    }
    if parts.len() != 6 {
        let mut msg = "Invalid MAC address: expected 6 octets, got ".to_owned();
        msg.append(u64_to_string(parts.len() as u64).as_str());
        return Err(msg);
    }
    let mut bytes: Vec<u8> = Vec::new();
    let mut k: usize = 0;
    while k < 6
        invariant
            parts@.len() == 6,
            pviews == parts@.map_values(|p: String| p@),
            pviews == spec_split(mac@, mac_seps()),
            pviews.len() == 6,
            k <= 6,
            bytes@.len() == k,
            forall|m: int| 0 <= m < k ==> spec_parse_hex_u8(#[trigger] pviews[m]) is Some,
            forall|m: int|
                0 <= m < k ==> Some(#[trigger] bytes@[m]) == spec_parse_hex_u8(pviews[m]),
        decreases 6 - k,
    {
        match parse_hex_u8(parts[k].as_str()) {
            Some(b) => {
                bytes.push(b);
            },
            None => {
                let mut msg = "Invalid hex octet '".to_owned();
                msg.append(parts[k].as_str());
                msg.append("' in MAC address");
                proof {
                    assert(spec_parse_hex_u8(pviews[k as int]) is None);
                }
                return Err(msg);
            },
        }
        k += 1;
    }
    proof {
        let expected = Seq::new(6, |m: int| spec_parse_hex_u8(pviews[m]).unwrap());
        assert(bytes@ =~= expected);
    }
    Ok(bytes)
}

/// Build a Wake-on-LAN magic packet: 6 bytes of 0xFF followed by the MAC
/// repeated 16 times.
pub fn build_magic_packet(mac: &Vec<u8>) -> (r: Vec<u8>)
    requires
        mac@.len() == 6,
    ensures
        r@.len() == 102,
        forall|i: int| 0 <= i < 6 ==> r@[i] == 0xffu8,
        forall|k: int, j: int| 0 <= k < 16 && 0 <= j < 6 ==> #[trigger] r@[6 + 6 * k + j] == mac@[j],
{
    let mut packet: Vec<u8> = Vec::new();
    let mut i: usize = 0;
    while i < 6
        invariant
            i <= 6,
            packet@.len() == i,
            forall|m: int| 0 <= m < i ==> packet@[m] == 0xffu8,
        decreases 6 - i,
    {
        packet.push(0xff);
        i += 1;
    }
    let mut k: usize = 0;
    while k < 16
        invariant
            mac@.len() == 6,
            k <= 16,
            packet@.len() == 6 + 6 * k,
            forall|m: int| 0 <= m < 6 ==> packet@[m] == 0xffu8,
            forall|kk: int, j: int|
                0 <= kk < k && 0 <= j < 6 ==> #[trigger] packet@[6 + 6 * kk + j] == mac@[j],
        decreases 16 - k,
    {
        let mut j: usize = 0;
        while j < 6
            invariant
                mac@.len() == 6,
                k < 16,
                j <= 6,
                packet@.len() == 6 + 6 * k + j,
                forall|m: int| 0 <= m < 6 ==> packet@[m] == 0xffu8,
                forall|kk: int, jj: int|
                    0 <= kk < k && 0 <= jj < 6 ==> #[trigger] packet@[6 + 6 * kk + jj] == mac@[jj],
                forall|jj: int| 0 <= jj < j ==> packet@[6 + 6 * k + jj] == mac@[jj],
            decreases 6 - j,
        {
            packet.push(mac[j]);
            j += 1;
        }
        k += 1;
    }
    packet
}

} // verus!
