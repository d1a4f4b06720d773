//! Network endpoints: an IP address, a socket address, and the parsers that
//! turn address text into them.
//!
//! The accepted address grammar has two forms. Dotted-quad IPv4: four
//! dot-separated octets, each one to three digits, no leading zero on a
//! multi-digit octet, each at most 255. IPv6: colon-separated groups of one
//! to four hex digits, either exactly eight groups, or fewer with a single
//! `::` standing for one or more zero groups (so at most seven written
//! groups); the last group may instead be an embedded dotted quad standing
//! for two groups, as in `::ffff:1.2.3.4`.
//! A port is a run of digits, with one optional leading `+`, whose value
//! fits in sixteen bits; leading zeros are allowed, as in `0080`.

use vstd::prelude::*;
use crate::text::{all_digits, dec_value, part_views, split_bytes, split_on};

verus! {

/// An IP address: four octets in text order, or eight 16-bit groups in
/// text order.
#[derive(Clone, Copy, Debug, PartialEq, Eq, Structural)]
pub enum IpAddress {
    V4(u8, u8, u8, u8),
    V6(u16, u16, u16, u16, u16, u16, u16, u16),
}

/// A resolved network endpoint: an IP address and a port.
#[derive(Clone, Copy, Debug, PartialEq, Eq, Structural)]
pub struct SocketAddress {
    pub ip: IpAddress,
    pub port: u16,
}

/// The decimal text of one IPv4 octet: one to three digits, no leading zero
/// unless the octet is the single digit `0`, and a value of at most 255.
pub open spec fn is_octet_text(s: Seq<u8>) -> bool {
    &&& 1 <= s.len() <= 3
    &&& all_digits(s)
    &&& (s.len() > 1 ==> s[0] != 48)
    &&& dec_value(s) <= 255
}

/// Dotted-quad IPv4 text: exactly four dot-separated octet texts.
pub open spec fn is_ipv4_text(s: Seq<u8>) -> bool {
    let p = split_bytes(s, 46);
    &&& p.len() == 4
    &&& is_octet_text(p[0])
    &&& is_octet_text(p[1])
    &&& is_octet_text(p[2])
    &&& is_octet_text(p[3])
}

/// The address that valid IPv4 text denotes.
pub open spec fn spec_ipv4_value(s: Seq<u8>) -> IpAddress {
    let p = split_bytes(s, 46);
    IpAddress::V4(
        dec_value(p[0]) as u8,
        dec_value(p[1]) as u8,
        dec_value(p[2]) as u8,
        dec_value(p[3]) as u8,
    )
}

/// Whether `b` is an ASCII hex digit, either case.
pub open spec fn is_hex_digit(b: u8) -> bool {
    (48 <= b <= 57) || (97 <= b <= 102) || (65 <= b <= 70)
}

/// The value of one hex digit.
pub open spec fn hex_val(b: u8) -> int {
    if 48 <= b <= 57 {
        b - 48
    } else if 97 <= b <= 102 {
        b - 87
    } else {
        b - 55
    }
}

/// One IPv6 group: one to four hex digits.
pub open spec fn is_h16(p: Seq<u8>) -> bool {
    &&& 1 <= p.len() <= 4
    &&& forall|i: int| 0 <= i < p.len() ==> is_hex_digit(#[trigger] p[i])
}

/// The value of a run of hex digits, most significant first.
pub open spec fn h16_value(p: Seq<u8>) -> int
    decreases p.len(),
{
    if p.len() == 0 {
        0
    } else {
        h16_value(p.drop_last()) * 16 + hex_val(p.last())
    }
}

/// Whether every part is an IPv6 group.
pub open spec fn all_h16(ps: Seq<Seq<u8>>) -> bool {
    forall|i: int| 0 <= i < ps.len() ==> is_h16(#[trigger] ps[i])
}

/// The values of a run of IPv6 groups.
pub open spec fn h16_values(ps: Seq<Seq<u8>>) -> Seq<u16> {
    ps.map_values(|p: Seq<u8>| h16_value(p) as u16)
}

/// The two groups an embedded dotted-quad tail stands for: the first two
/// octets, then the last two, each pair big-endian as the text reads.
pub open spec fn v4_tail_groups(s: Seq<u8>) -> Seq<u16> {
    let p = split_bytes(s, 46);
    seq![
        (dec_value(p[0]) * 256 + dec_value(p[1])) as u16,
        (dec_value(p[2]) * 256 + dec_value(p[3])) as u16,
    ]
}

/// The groups a run of parts stands for: hex groups, the last possibly an
/// embedded dotted quad standing for two.
pub open spec fn parts_groups(ps: Seq<Seq<u8>>) -> Option<Seq<u16>> {
    if ps.len() == 0 {
        Some(Seq::empty())
    } else if all_h16(ps) {
        Some(h16_values(ps))
    } else if all_h16(ps.drop_last()) && is_ipv4_text(ps.last()) {
        Some(h16_values(ps.drop_last()) + v4_tail_groups(ps.last()))
    } else {
        None
    }
}

/// `k` zero groups.
pub open spec fn zero_groups(k: int) -> Seq<u16> {
    Seq::new(k as nat, |i: int| 0u16)
}

/// The index of the first empty part, or the length when none is empty.
pub open spec fn first_empty(ps: Seq<Seq<u8>>) -> int
    decreases ps.len(),
{
    if ps.len() == 0 {
        0
    } else if ps[0].len() == 0 {
        0
    } else {
        1 + first_empty(ps.drop_first())
    }
}

/// The eight groups that colon-split IPv6 text denotes, if it is valid: a
/// full form of eight groups, or one `::` (a run of empty parts) standing
/// for the missing, zero, groups. The `::` may open the text, close it, or
/// sit between written groups, and must replace at least one group.
pub open spec fn ipv6_groups(p: Seq<Seq<u8>>) -> Option<Seq<u16>> {
    let f = first_empty(p);
    if f == p.len() {
        match parts_groups(p) {
            Some(g) => if g.len() == 8 {
                Some(g)
            } else {
                None
            },
            None => None,
        }
    } else if f == 0 {
        if p.len() == 3 && p[1].len() == 0 && p[2].len() == 0 {
            Some(zero_groups(8))
        } else if p.len() >= 2 && p[1].len() == 0 {
            match parts_groups(p.subrange(2, p.len() as int)) {
                Some(g) => if 1 <= g.len() <= 7 {
                    Some(zero_groups(8 - g.len()) + g)
                } else {
                    None
                },
                None => None,
            }
        } else {
            None
        }
    } else if f == p.len() - 1 {
        None
    } else if p[f + 1].len() == 0 {
        if f + 2 == p.len() && f <= 7 && all_h16(p.subrange(0, f)) {
            Some(h16_values(p.subrange(0, f)) + zero_groups(8 - f))
        } else {
            None
        }
    } else {
        match parts_groups(p.subrange(f + 1, p.len() as int)) {
            Some(g) => if f + g.len() <= 7 && all_h16(p.subrange(0, f)) {
                Some(
                    h16_values(p.subrange(0, f)) + zero_groups(8 - f - g.len()) + g,
                )
            } else {
                None
            },
            None => None,
        }
    }
}

/// IPv6 text: its colon-split parts denote eight groups.
pub open spec fn is_ipv6_text(s: Seq<u8>) -> bool {
    ipv6_groups(split_bytes(s, 58)) is Some
}

/// The address that valid IPv6 text denotes.
pub open spec fn spec_ipv6_value(s: Seq<u8>) -> IpAddress {
    match ipv6_groups(split_bytes(s, 58)) {
        Some(g) => IpAddress::V6(g[0], g[1], g[2], g[3], g[4], g[5], g[6], g[7]),
        None => IpAddress::V4(0, 0, 0, 0),
    }
}

/// IP address text: either grammar.
pub open spec fn is_ip_text(s: Seq<u8>) -> bool {
    is_ipv4_text(s) || is_ipv6_text(s)
}

/// The address that valid IP text denotes. The grammars are disjoint: IPv4
/// text has no colon, so its colon-split is one dotted part.
pub open spec fn spec_ip_value(s: Seq<u8>) -> IpAddress {
    if is_ipv4_text(s) {
        spec_ipv4_value(s)
    } else {
        spec_ipv6_value(s)
    }
}

/// Port text: an optional leading `+`, then a non-empty run of digits
/// whose value is at most 65535.
pub open spec fn is_port_digits(t: Seq<u8>) -> bool {
    &&& t.len() >= 1
    &&& all_digits(t)
    &&& dec_value(t) <= 65535
}

/// Port text, sign included.
pub open spec fn is_port_text(s: Seq<u8>) -> bool {
    if s.len() >= 1 && s[0] == 43 {
        is_port_digits(s.subrange(1, s.len() as int))
    } else {
        is_port_digits(s)
    }
}

/// The port that valid port text denotes.
pub open spec fn spec_port_value(s: Seq<u8>) -> u16 {
    if s.len() >= 1 && s[0] == 43 {
        dec_value(s.subrange(1, s.len() as int)) as u16
    } else {
        dec_value(s) as u16
    }
}

/// Reads one octet. Returns its value exactly when `s` is octet text.
fn parse_octet(s: &[u8]) -> (r: Option<u8>)
    ensures
        match r {
            Some(v) => is_octet_text(s@) && v as int == dec_value(s@),
            None => !is_octet_text(s@),
        },
{
    if s.len() == 0 || s.len() > 3 {
        return None;
    }
    if s.len() > 1 && s[0] == 48 {
        return None;
    }
    match crate::text::parse_decimal(s, 255) {
        Some(v) => Some(v as u8),
        None => None,
    }
}

/// Parses dotted-quad IPv4 text, exactly the grammar `is_ipv4_text`.
fn parse_ipv4(text: &[u8]) -> (r: Option<IpAddress>)
    ensures
        match r {
            Some(ip) => is_ipv4_text(text@) && ip == spec_ipv4_value(text@),
            None => !is_ipv4_text(text@),
        },
{
    let parts = split_on(text, 46);
    proof {
        assert(part_views(parts@).len() == parts@.len());
    }
    if parts.len() != 4 {
        return None;
    }
    proof {
        assert(part_views(parts@)[0] == parts@[0]@);
        assert(part_views(parts@)[1] == parts@[1]@);
        assert(part_views(parts@)[2] == parts@[2]@);
        assert(part_views(parts@)[3] == parts@[3]@);
    }
    let a = match parse_octet(parts[0].as_slice()) {
        Some(v) => v,
        None => {
            return None;
        },
    };
    let b = match parse_octet(parts[1].as_slice()) {
        Some(v) => v,
        None => {
            return None;
        },
    };
    let c = match parse_octet(parts[2].as_slice()) {
        Some(v) => v,
        None => {
            return None;
        },
    };
    let d = match parse_octet(parts[3].as_slice()) {
        Some(v) => v,
        None => {
            return None;
        },
    };
    Some(IpAddress::V4(a, b, c, d))
}

/// Sixteen to the `k`.
pub open spec fn pow16(k: int) -> int
    decreases k,
{
    if k <= 0 {
        1
    } else {
        16 * pow16(k - 1)
    }
}

/// The value of one hex digit byte, exactly when it is one.
fn hex_digit(b: u8) -> (r: Option<u8>)
    ensures
        match r {
            Some(v) => is_hex_digit(b) && v as int == hex_val(b),
            None => !is_hex_digit(b),
        },
{
    if 48 <= b && b <= 57 {
        Some(b - 48)
    } else if 97 <= b && b <= 102 {
        Some(b - 87)
    } else if 65 <= b && b <= 70 {
        Some(b - 55)
    } else {
        None
    }
}

/// Reads one IPv6 group. Returns its value exactly when `s` is a group.
fn parse_h16(s: &[u8]) -> (r: Option<u16>)
    ensures
        match r {
            Some(v) => is_h16(s@) && v as int == h16_value(s@),
            None => !is_h16(s@),
        },
{
    if s.len() == 0 || s.len() > 4 {
        return None;
    }
    let mut acc: u32 = 0;
    let mut i: usize = 0;
    proof {
        assert(pow16(0) == 1 && pow16(1) == 16 && pow16(2) == 256 && pow16(3) == 4096
            && pow16(4) == 65536);
    }
    while i < s.len()
        invariant
            i <= s@.len() <= 4,
            forall|j: int| 0 <= j < i ==> is_hex_digit(#[trigger] s@[j]),
            acc as int == h16_value(s@.take(i as int)),
            (acc as int) < pow16(i as int),
            pow16(0) == 1 && pow16(1) == 16 && pow16(2) == 256 && pow16(3) == 4096 && pow16(4)
                == 65536,
        decreases s@.len() - i,
    {
        let d = match hex_digit(s[i]) {
            Some(d) => d,
            None => {
                proof {
                    assert(!is_hex_digit(s@[i as int]));
                }
                return None;
            },
        };
        proof {
            assert(s@.take(i + 1).drop_last() =~= s@.take(i as int));
            assert(s@.take(i + 1).last() == s@[i as int]);
        }
        acc = acc * 16 + (d as u32);
        i += 1;
    }
    proof {
        assert(s@.take(i as int) =~= s@);
    }
    Some(acc as u16)
}

/// `first_empty` is the scan result: the parts before it are non-empty and
/// it is either an empty part or the end.
proof fn lemma_first_empty_at(ps: Seq<Seq<u8>>, f: int)
    requires
        0 <= f <= ps.len(),
        forall|j: int| 0 <= j < f ==> (#[trigger] ps[j]).len() > 0,
        f < ps.len() ==> ps[f].len() == 0,
    ensures
        first_empty(ps) == f,
    decreases f,
{
    if f > 0 {
        assert(forall|j: int|
            0 <= j < ps.len() - 1 ==> #[trigger] ps.drop_first()[j] == ps[j + 1]);
        lemma_first_empty_at(ps.drop_first(), f - 1);
    }
}

/// Reads the groups of `parts[start..end]`. Returns their values exactly
/// when every one is an IPv6 group.
fn parse_h16_run(parts: &Vec<Vec<u8>>, start: usize, end: usize) -> (r: Option<Vec<u16>>)
    requires
        start <= end <= parts@.len(),
    ensures
        match r {
            Some(vs) => all_h16(part_views(parts@).subrange(start as int, end as int))
                && vs@ == h16_values(part_views(parts@).subrange(start as int, end as int))
                && vs@.len() == end - start,
            None => !all_h16(part_views(parts@).subrange(start as int, end as int)),
        },
{
    let ghost p = part_views(parts@);
    let mut out: Vec<u16> = Vec::new();
    let mut i: usize = start;
    proof {
        assert(out@ =~= h16_values(p.subrange(start as int, start as int)));
    }
    while i < end
        invariant
            start <= i <= end <= parts@.len(),
            p == part_views(parts@),
            forall|j: int| start <= j < i ==> is_h16(#[trigger] p[j]),
            out@ == h16_values(p.subrange(start as int, i as int)),
            out@.len() == i - start,
        decreases end - i,
    {
        proof {
            assert(p[i as int] == parts@[i as int]@);
        }
        let v = match parse_h16(parts[i].as_slice()) {
            Some(v) => v,
            None => {
                proof {
                    assert(p.subrange(start as int, end as int)[i - start] == p[i as int]);
                }
                return None;
            },
        };
        out.push(v);
        proof {
            assert(p.subrange(start as int, i + 1) =~= p.subrange(start as int, i as int).push(
                p[i as int],
            ));
            assert(out@ =~= h16_values(p.subrange(start as int, i + 1)));
        }
        i += 1;
    }
    proof {
        assert(forall|j: int|
            0 <= j < end - start ==> #[trigger] p.subrange(start as int, end as int)[j] == p[j
                + start]);
    }
    Some(out)
}

/// The embedded dotted-quad tail as its two groups, exactly when `s` is
/// dotted-quad text.
fn parse_v4_tail(s: &[u8]) -> (r: Option<(u16, u16)>)
    ensures
        match r {
            Some((hi, lo)) => is_ipv4_text(s@) && seq![hi, lo] == v4_tail_groups(s@),
            None => !is_ipv4_text(s@),
        },
{
    match parse_ipv4(s) {
        Some(ip) => match ip {
            IpAddress::V4(a, b, c, d) => {
                let hi = (a as u16) * 256 + (b as u16);
                let lo = (c as u16) * 256 + (d as u16);
                proof {
                    let q = split_bytes(s@, 46);
                    crate::text::lemma_dec_value_nonneg(q[0]);
                    crate::text::lemma_dec_value_nonneg(q[1]);
                    crate::text::lemma_dec_value_nonneg(q[2]);
                    crate::text::lemma_dec_value_nonneg(q[3]);
                    assert(seq![hi, lo] =~= v4_tail_groups(s@));
                }
                Some((hi, lo))
            },
            IpAddress::V6(g0, g1, g2, g3, g4, g5, g6, g7) => {
                proof {
                    assert(false);
                }
                None
            },
        },
        None => None,
    }
}

/// Reads the groups of `parts[start..end]`, the last possibly an embedded
/// dotted quad, exactly as `parts_groups` describes.
fn parse_group_run(parts: &Vec<Vec<u8>>, start: usize, end: usize) -> (r: Option<Vec<u16>>)
    requires
        start <= end <= parts@.len(),
    ensures
        match r {
            Some(vs) => parts_groups(part_views(parts@).subrange(start as int, end as int))
                == Some(vs@),
            None => parts_groups(
                part_views(parts@).subrange(start as int, end as int),
            ) is None,
        },
{
    let ghost p = part_views(parts@);
    let ghost sub = p.subrange(start as int, end as int);
    if start == end {
        let vs: Vec<u16> = Vec::new();
        proof {
            assert(sub =~= Seq::<Seq<u8>>::empty());
            assert(vs@ =~= Seq::<u16>::empty());
        }
        return Some(vs);
    }
    let head = match parse_h16_run(parts, start, end - 1) {
        Some(vs) => vs,
        None => {
            proof {
                assert(sub.drop_last() =~= p.subrange(start as int, end - 1));
                let k0 = choose|k: int|
                    0 <= k < p.subrange(start as int, end - 1).len() && !is_h16(
                        #[trigger] p.subrange(start as int, end - 1)[k],
                    );
                assert(sub[k0] == p.subrange(start as int, end - 1)[k0]);
            }
            return None;
        },
    };
    proof {
        assert(p[end - 1] == parts@[end - 1]@);
        assert(sub.last() == p[end - 1]);
        assert(sub.drop_last() =~= p.subrange(start as int, end - 1));
    }
    match parse_h16(parts[end - 1].as_slice()) {
        Some(v) => {
            let mut vs = head;
            vs.push(v);
            proof {
                assert forall|i: int| 0 <= i < sub.len() implies is_h16(#[trigger] sub[i]) by {
                    if i < sub.len() - 1 {
                        assert(sub[i] == p.subrange(start as int, end - 1)[i]);
                    }
                }
                assert(vs@ =~= h16_values(sub));
            }
            Some(vs)
        },
        None => {
            match parse_v4_tail(parts[end - 1].as_slice()) {
                Some((hi, lo)) => {
                    let mut vs = head;
                    vs.push(hi);
                    vs.push(lo);
                    proof {
                        assert(!all_h16(sub)) by {
                            assert(!is_h16(sub[sub.len() - 1]));
                        }
                        assert(vs@ =~= h16_values(sub.drop_last()) + v4_tail_groups(
                            sub.last(),
                        ));
                    }
                    Some(vs)
                },
                None => {
                    proof {
                        assert(!all_h16(sub)) by {
                            assert(!is_h16(sub[sub.len() - 1]));
                        }
                    }
                    None
                },
            }
        },
    }
}

/// Appends `k` zero groups.
fn push_zero_groups(out: &mut Vec<u16>, k: usize)
    ensures
        final(out)@ == old(out)@ + zero_groups(k as int),
{
    let mut j: usize = 0;
    proof {
        assert(old(out)@ + zero_groups(0) =~= old(out)@);
    }
    while j < k
        invariant
            j <= k,
            out@ == old(out)@ + zero_groups(j as int),
        decreases k - j,
    {
        out.push(0);
        proof {
            assert(out@ =~= old(out)@ + zero_groups(j + 1));
        }
        j += 1;
    }
}

/// Parses IPv6 text, exactly the grammar `is_ipv6_text`.
#[verifier::rlimit(50)]
fn parse_ipv6(text: &[u8]) -> (r: Option<IpAddress>)
    ensures
        match r {
            Some(ip) => is_ipv6_text(text@) && ip == spec_ipv6_value(text@),
            None => !is_ipv6_text(text@),
        },
{
    let parts = split_on(text, 58);
    let ghost p = part_views(parts@);
    let n = parts.len();
    proof {
        assert(p.len() == parts@.len());
    }
    let mut f: usize = 0;
    while f < n && !parts[f].is_empty()
        invariant
            f <= n == parts@.len(),
            p == part_views(parts@),
            forall|j: int| 0 <= j < f ==> (#[trigger] p[j]).len() > 0,
        decreases n - f,
    {
        proof {
            assert(p[f as int] == parts@[f as int]@);
        }
        f += 1;
    }
    proof {
        if f < n {
            assert(p[f as int] == parts@[f as int]@);
        }
        lemma_first_empty_at(p, f as int);
    }
    let groups: Vec<u16>;
    if f == n {
        proof {
            assert(p.subrange(0, n as int) =~= p);
        }
        let g = match parse_group_run(&parts, 0, n) {
            Some(vs) => vs,
            None => {
                return None;
            },
        };
        if g.len() != 8 {
            return None;
        }
        groups = g;
    } else if f == 0 {
        proof {
            assert(p[0].len() == 0);
        }
        if n < 2 {
            return None;
        }
        proof {
            assert(p[1] == parts@[1]@);
        }
        if !parts[1].is_empty() {
            return None;
        }
        if n == 3 && parts[2].is_empty() {
            proof {
                assert(p[2] == parts@[2]@);
            }
            let mut zs: Vec<u16> = Vec::new();
            push_zero_groups(&mut zs, 8);
            groups = zs;
        } else {
            let tail = match parse_group_run(&parts, 2, n) {
                Some(vs) => vs,
                None => {
                    return None;
                },
            };
            if tail.len() < 1 || tail.len() > 7 {
                return None;
            }
            let mut zs: Vec<u16> = Vec::new();
            push_zero_groups(&mut zs, 8 - tail.len());
            let mut t = tail;
            zs.append(&mut t);
            groups = zs;
        }
    } else if f == n - 1 {
        return None;
    } else {
        proof {
            assert(p[f + 1] == parts@[f + 1]@);
        }
        if parts[f + 1].is_empty() {
            if f + 2 == n && f <= 7 {
                let head = match parse_h16_run(&parts, 0, f) {
                    Some(vs) => vs,
                    None => {
                        return None;
                    },
                };
                let mut g = head;
                push_zero_groups(&mut g, 8 - f);
                groups = g;
            } else {
                return None;
            }
        } else {
            let head = match parse_h16_run(&parts, 0, f) {
                Some(vs) => vs,
                None => {
                    return None;
                },
            };
            let tail = match parse_group_run(&parts, f + 1, n) {
                Some(vs) => vs,
                None => {
                    return None;
                },
            };
            if f > 7 {
                return None;
            }
            if tail.len() > 7 - f {
                return None;
            }
            let mut g = head;
            push_zero_groups(&mut g, 8 - f - tail.len());
            let mut t = tail;
            g.append(&mut t);
            groups = g;
        }
    }
    proof {
        assert(ipv6_groups(p) matches Some(gs) && gs == groups@);
        assert(groups@.len() == 8);
    }
    Some(
        IpAddress::V6(
            groups[0],
            groups[1],
            groups[2],
            groups[3],
            groups[4],
            groups[5],
            groups[6],
            groups[7],
        ),
    )
}

/// Parses IP address text. Returns the denoted address exactly when `text`
/// meets either grammar of `is_ip_text`.
pub fn parse_ip(text: &[u8]) -> (r: Option<IpAddress>)
    ensures
        match r {
            Some(ip) => is_ip_text(text@) && ip == spec_ip_value(text@),
            None => !is_ip_text(text@),
        },
{
    match parse_ipv4(text) {
        Some(ip) => Some(ip),
        None => parse_ipv6(text),
    }
}

/// Parses port text. Returns the denoted port exactly when `text` meets the
/// grammar `is_port_text`.
pub fn parse_port(text: &[u8]) -> (r: Option<u16>)
    ensures
        match r {
            Some(v) => is_port_text(text@) && v == spec_port_value(text@),
            None => !is_port_text(text@),
        },
{
    if text.len() >= 1 && text[0] == 43 {
        let rest = &text[1..text.len()];
        proof {
            assert(rest@ =~= text@.subrange(1, text@.len() as int));
        }
        match crate::text::parse_decimal(rest, 65535) {
            Some(v) => Some(v as u16),
            None => None,
        }
    } else {
        match crate::text::parse_decimal(text, 65535) {
            Some(v) => Some(v as u16),
            None => None,
        }
    }
}

} // verus!
