//! The byte image of the persisted registry.
//!
//! The registry is written in full and read back in full. The image is: the
//! daemon count as eight little-endian bytes; one record per daemon; then an
//! active-daemon tag byte, `0` for none and `1` followed by one record. A
//! record is the name's byte count as eight little-endian bytes, the name
//! bytes, the address (a tag byte, `4` then the four octets, or `6` then
//! the eight groups as two little-endian bytes each), and the port as two
//! little-endian bytes. Decoding accepts exactly the images that encoding
//! produces: anything else, trailing bytes and duplicate names included, is
//! `ConfigCorrupt`.

use vstd::prelude::*;
use vstd::slice::slice_to_vec;
use crate::addr::{IpAddress, SocketAddress};
use crate::errors::JokerError;
use crate::registry::{contains_name, insert_absent, lemma_add_then_lookup,
    lemma_lookup_absent, lookup, models, names_unique, unique_names, DaemonRecord,
    RegistryState};
use crate::wire::{le64_bytes, le64_value, lemma_le64_round_trip, spec_le64, spec_le64_value};

verus! {

/// The two bytes of `n`, least significant first.
pub open spec fn spec_le16(n: u16) -> Seq<u8> {
    seq![(n & 0xff) as u8, ((n >> 8) & 0xff) as u8]
}

/// The value two little-endian bytes stand for.
pub open spec fn spec_le16_value(b: Seq<u8>) -> u16
    recommends
        b.len() == 2,
{
    (b[0] as u16) | ((b[1] as u16) << 8)
}

/// Reading back the two little-endian bytes of `n` yields `n`.
pub proof fn lemma_le16_round_trip(n: u16)
    ensures
        spec_le16_value(spec_le16(n)) == n,
{
    assert(((n & 0xff) as u8 as u16) | (((n >> 8) & 0xff) as u8 as u16) << 8 == n)
        by (bit_vector);
}

/// The byte image of an address: a tag byte, `4` followed by the four
/// octets, or `6` followed by the eight groups as two little-endian bytes
/// each.
pub open spec fn spec_enc_ip(ip: IpAddress) -> Seq<u8> {
    match ip {
        IpAddress::V4(x0, x1, x2, x3) => seq![4u8, x0, x1, x2, x3],
        IpAddress::V6(g0, g1, g2, g3, g4, g5, g6, g7) => seq![6u8] + spec_le16(g0) + spec_le16(
            g1,
        ) + spec_le16(g2) + spec_le16(g3) + spec_le16(g4) + spec_le16(g5) + spec_le16(g6)
            + spec_le16(g7),
    }
}

/// The byte image of one record: name length, name, address, port.
pub open spec fn spec_enc_record(name: Seq<u8>, a: SocketAddress) -> Seq<u8> {
    spec_le64(name.len() as u64) + name + spec_enc_ip(a.ip) + spec_le16(a.port)
}

/// The byte image of a run of records, in order.
pub open spec fn spec_enc_records(d: Seq<(Seq<u8>, SocketAddress)>) -> Seq<u8>
    decreases d.len(),
{
    if d.len() == 0 {
        Seq::empty()
    } else {
        spec_enc_record(d[0].0, d[0].1) + spec_enc_records(d.drop_first())
    }
}

/// The byte image of the whole registry.
pub open spec fn spec_enc_state(
    d: Seq<(Seq<u8>, SocketAddress)>,
    active: Option<(Seq<u8>, SocketAddress)>,
) -> Seq<u8> {
    spec_le64(d.len() as u64) + spec_enc_records(d) + (match active {
        None => seq![0u8],
        Some(p) => seq![1u8] + spec_enc_record(p.0, p.1),
    })
}

/// Encoding a run of records encodes each in turn.
pub proof fn lemma_enc_records_concat(
    d1: Seq<(Seq<u8>, SocketAddress)>,
    d2: Seq<(Seq<u8>, SocketAddress)>,
)
    ensures
        spec_enc_records(d1 + d2) == spec_enc_records(d1) + spec_enc_records(d2),
    decreases d1.len(),
{
    if d1.len() == 0 {
        assert(d1 + d2 =~= d2);
        assert(spec_enc_records(d1) + spec_enc_records(d2) =~= spec_enc_records(d2));
    } else {
        assert((d1 + d2).drop_first() =~= d1.drop_first() + d2);
        lemma_enc_records_concat(d1.drop_first(), d2);
        assert(spec_enc_records(d1 + d2) =~= spec_enc_records(d1) + spec_enc_records(d2));
    }
}

/// The image of a single record run is that record's image.
pub proof fn lemma_enc_records_singleton(p: (Seq<u8>, SocketAddress))
    ensures
        spec_enc_records(seq![p]) == spec_enc_record(p.0, p.1),
{
    let s = seq![p];
    assert(s[0] == p);
    assert(s.drop_first() =~= Seq::<(Seq<u8>, SocketAddress)>::empty());
    assert(spec_enc_records(Seq::<(Seq<u8>, SocketAddress)>::empty()) == Seq::<u8>::empty());
    assert(spec_enc_records(s) == spec_enc_record(p.0, p.1) + spec_enc_records(s.drop_first()));
    assert(spec_enc_records(s) =~= spec_enc_record(p.0, p.1));
}

/// Appends the two little-endian bytes of `v` to `out`.
fn push_le16(out: &mut Vec<u8>, v: u16)
    ensures
        final(out)@ == old(out)@ + spec_le16(v),
{
    proof {
        assert((v & 0xff) < 256 && ((v >> 8) & 0xff) < 256) by (bit_vector);
    }
    out.push((v & 0xff) as u8);
    out.push(((v >> 8) & 0xff) as u8);
    proof {
        assert(final(out)@ =~= old(out)@ + spec_le16(v));
    }
}

/// Appends the byte image of an address to `out`.
fn push_ip(out: &mut Vec<u8>, ip: IpAddress)
    ensures
        final(out)@ == old(out)@ + spec_enc_ip(ip),
{
    match ip {
        IpAddress::V4(x0, x1, x2, x3) => {
            out.push(4);
            out.push(x0);
            out.push(x1);
            out.push(x2);
            out.push(x3);
            proof {
                assert(final(out)@ =~= old(out)@ + spec_enc_ip(ip));
            }
        },
        IpAddress::V6(g0, g1, g2, g3, g4, g5, g6, g7) => {
            out.push(6);
            push_le16(out, g0);
            push_le16(out, g1);
            push_le16(out, g2);
            push_le16(out, g3);
            push_le16(out, g4);
            push_le16(out, g5);
            push_le16(out, g6);
            push_le16(out, g7);
            proof {
                assert(final(out)@ =~~= old(out)@ + spec_enc_ip(ip));
            }
        },
    }
}

/// Appends the byte image of one record to `out`.
fn push_record(out: &mut Vec<u8>, rec: &DaemonRecord)
    ensures
        final(out)@ == old(out)@ + spec_enc_record(rec.name@, rec.addr),
{
    let mut len_bytes = le64_bytes(rec.name.len() as u64);
    out.append(&mut len_bytes);
    let mut name_bytes = slice_to_vec(rec.name.as_slice());
    out.append(&mut name_bytes);
    push_ip(out, rec.addr.ip);
    push_le16(out, rec.addr.port);
    proof {
        assert(final(out)@ =~~= old(out)@ + spec_enc_record(rec.name@, rec.addr));
    }
}

/// The byte image of `s`, exactly `spec_enc_state` of its model. This is the
/// compute half of `save`: the caller writes the image to storage in full.
pub fn encode_state(s: &RegistryState) -> (r: Vec<u8>)
    ensures
        r@ == spec_enc_state(s.daemons_model(), s.active_model()),
{
    let ghost d = s.daemons_model();
    let mut out = le64_bytes(s.daemons.len() as u64);
    let mut i: usize = 0;
    while i < s.daemons.len()
        invariant
            i <= s.daemons@.len(),
            d == s.daemons_model(),
            out@ == spec_le64(s.daemons@.len() as u64) + spec_enc_records(d.take(i as int)),
        decreases s.daemons@.len() - i,
    {
        let ghost prefix = d.take(i as int);
        push_record(&mut out, &s.daemons[i]);
        proof {
            assert(d.take(i + 1) =~= prefix + seq![d[i as int]]);
            lemma_enc_records_concat(prefix, seq![d[i as int]]);
            lemma_enc_records_singleton(d[i as int]);
            assert(out@ =~= spec_le64(s.daemons@.len() as u64) + spec_enc_records(
                d.take(i + 1),
            ));
        }
        i += 1;
    }
    proof {
        assert(d.take(i as int) =~= d);
    }
    match &s.active_daemon {
        None => {
            out.push(0);
        },
        Some(rec) => {
            out.push(1);
            push_record(&mut out, rec);
        },
    }
    proof {
        assert(out@ =~= spec_enc_state(s.daemons_model(), s.active_model()));
    }
    out
}

/// Reads eight little-endian bytes at `pos`: the value and the next position.
pub open spec fn spec_dec_u64(b: Seq<u8>, pos: int) -> Option<(u64, int)> {
    if 0 <= pos && pos + 8 <= b.len() {
        Some((spec_le64_value(b.subrange(pos, pos + 8)), pos + 8))
    } else {
        None
    }
}

/// Reads one address at `pos`: the tag byte decides the width.
pub open spec fn spec_dec_ip(b: Seq<u8>, pos: int) -> Option<(IpAddress, int)> {
    if 0 <= pos && pos < b.len() {
        if b[pos] == 4 && pos + 5 <= b.len() {
            Some((IpAddress::V4(b[pos + 1], b[pos + 2], b[pos + 3], b[pos + 4]), pos + 5))
        } else if b[pos] == 6 && pos + 17 <= b.len() {
            Some(
                (
                    IpAddress::V6(
                        spec_le16_value(b.subrange(pos + 1, pos + 3)),
                        spec_le16_value(b.subrange(pos + 3, pos + 5)),
                        spec_le16_value(b.subrange(pos + 5, pos + 7)),
                        spec_le16_value(b.subrange(pos + 7, pos + 9)),
                        spec_le16_value(b.subrange(pos + 9, pos + 11)),
                        spec_le16_value(b.subrange(pos + 11, pos + 13)),
                        spec_le16_value(b.subrange(pos + 13, pos + 15)),
                        spec_le16_value(b.subrange(pos + 15, pos + 17)),
                    ),
                    pos + 17,
                ),
            )
        } else {
            None
        }
    } else {
        None
    }
}

/// Reads one record at `pos`: its model and the next position.
pub open spec fn spec_dec_record(b: Seq<u8>, pos: int) -> Option<((Seq<u8>, SocketAddress), int)> {
    match spec_dec_u64(b, pos) {
        None => None,
        Some((n, p1)) => if p1 + n <= b.len() {
            match spec_dec_ip(b, p1 + n) {
                None => None,
                Some((ip, p2)) => if p2 + 2 <= b.len() {
                    Some(
                        (
                            (
                                b.subrange(p1, p1 + n),
                                SocketAddress {
                                    ip,
                                    port: spec_le16_value(b.subrange(p2, p2 + 2)),
                                },
                            ),
                            p2 + 2,
                        ),
                    )
                } else {
                    None
                },
            }
        } else {
            None
        },
    }
}

/// Reads `count` records in a row starting at `pos`.
pub open spec fn spec_dec_records(b: Seq<u8>, pos: int, count: nat) -> Option<
    (Seq<(Seq<u8>, SocketAddress)>, int),
>
    decreases count,
{
    if count == 0 {
        Some((Seq::empty(), pos))
    } else {
        match spec_dec_record(b, pos) {
            None => None,
            Some((r, p1)) => match spec_dec_records(b, p1, (count - 1) as nat) {
                None => None,
                Some((rest, p2)) => Some((seq![r] + rest, p2)),
            },
        }
    }
}

/// Reads a whole registry image: the count, that many records, the active
/// tag and record, and nothing after them; the names must be distinct.
pub open spec fn spec_dec_state(b: Seq<u8>) -> Option<
    (Seq<(Seq<u8>, SocketAddress)>, Option<(Seq<u8>, SocketAddress)>),
> {
    match spec_dec_u64(b, 0) {
        None => None,
        Some((count, p1)) => match spec_dec_records(b, p1, count as nat) {
            None => None,
            Some((d, p2)) => if !unique_names(d) {
                None
            } else if p2 + 1 == b.len() && b[p2] == 0 {
                Some((d, None))
            } else if p2 < b.len() && b[p2] == 1 {
                match spec_dec_record(b, p2 + 1) {
                    None => None,
                    Some((r, p3)) => if p3 == b.len() {
                        Some((d, Some(r)))
                    } else {
                        None
                    },
                }
            } else {
                None
            },
        },
    }
}

/// Reads eight little-endian bytes, as `spec_dec_u64` describes.
fn read_u64(b: &[u8], pos: usize) -> (r: Option<(u64, usize)>)
    requires
        pos <= b@.len(),
    ensures
        match r {
            Some((v, p)) => spec_dec_u64(b@, pos as int) == Some((v, p as int)) && p
                <= b@.len(),
            None => spec_dec_u64(b@, pos as int) is None,
        },
{
    if b.len() - pos >= 8 {
        let v = le64_value(&b[pos..pos + 8]);
        Some((v, pos + 8))
    } else {
        None
    }
}

/// Reads two little-endian bytes at `pos`.
fn read_le16(b: &[u8], pos: usize) -> (r: u16)
    requires
        pos + 2 <= b@.len(),
    ensures
        r == spec_le16_value(b@.subrange(pos as int, pos + 2)),
{
    proof {
        let s = b@.subrange(pos as int, pos + 2);
        assert(s[0] == b@[pos as int] && s[1] == b@[pos + 1]);
    }
    (b[pos] as u16) | ((b[pos + 1] as u16) << 8)
}

/// Reads one address, as `spec_dec_ip` describes.
fn read_ip(b: &[u8], pos: usize) -> (r: Option<(IpAddress, usize)>)
    requires
        pos <= b@.len(),
    ensures
        match r {
            Some((ip, p)) => spec_dec_ip(b@, pos as int) == Some((ip, p as int)) && p
                <= b@.len(),
            None => spec_dec_ip(b@, pos as int) is None,
        },
{
    if pos < b.len() {
        let tag = b[pos];
        if tag == 4 && b.len() - pos >= 5 {
            Some((IpAddress::V4(b[pos + 1], b[pos + 2], b[pos + 3], b[pos + 4]), pos + 5))
        } else if tag == 6 && b.len() - pos >= 17 {
            let g0 = read_le16(b, pos + 1);
            let g1 = read_le16(b, pos + 3);
            let g2 = read_le16(b, pos + 5);
            let g3 = read_le16(b, pos + 7);
            let g4 = read_le16(b, pos + 9);
            let g5 = read_le16(b, pos + 11);
            let g6 = read_le16(b, pos + 13);
            let g7 = read_le16(b, pos + 15);
            Some((IpAddress::V6(g0, g1, g2, g3, g4, g5, g6, g7), pos + 17))
        } else {
            None
        }
    } else {
        None
    }
}

/// Reads one record, as `spec_dec_record` describes.
fn read_record(b: &[u8], pos: usize) -> (r: Option<(DaemonRecord, usize)>)
    requires
        pos <= b@.len(),
    ensures
        match r {
            Some((rec, p)) => spec_dec_record(b@, pos as int) == Some((rec.model(), p as int))
                && p <= b@.len(),
            None => spec_dec_record(b@, pos as int) is None,
        },
{
    match read_u64(b, pos) {
        None => None,
        Some((n, p1)) => {
            let rem = b.len() - p1;
            if n > rem as u64 {
                return None;
            }
            let nlen = n as usize;
            let name = slice_to_vec(&b[p1..p1 + nlen]);
            match read_ip(b, p1 + nlen) {
                None => None,
                Some((ip, p2)) => {
                    if b.len() - p2 >= 2 {
                        let port = read_le16(b, p2);
                        Some(
                            (DaemonRecord { name, addr: SocketAddress { ip, port } }, p2 + 2),
                        )
                    } else {
                        None
                    }
                },
            }
        },
    }
}

/// Reads a registry back from its byte image. This is the compute half of
/// `load`: the caller hands over the stored bytes in full. Exactly the
/// images `encode_state` produces are accepted; everything else is
/// `ConfigCorrupt`, as `spec_dec_state` describes.
pub fn decode_state(bytes: &[u8]) -> (r: Result<RegistryState, JokerError>)
    ensures
        match r {
            Ok(st) => st.wf() && spec_dec_state(bytes@) == Some(
                (st.daemons_model(), st.active_model()),
            ),
            Err(e) => e == JokerError::ConfigCorrupt && spec_dec_state(bytes@) is None,
        },
{
    let (count, p1) = match read_u64(bytes, 0) {
        None => {
            return Err(JokerError::ConfigCorrupt);
        },
        Some(x) => x,
    };
    let mut daemons: Vec<DaemonRecord> = Vec::new();
    let mut pos: usize = p1;
    let mut k: u64 = 0;
    proof {
        assert(models(daemons@) =~= Seq::<(Seq<u8>, SocketAddress)>::empty());
        assert(models(daemons@) + Seq::<(Seq<u8>, SocketAddress)>::empty() =~= models(
            daemons@,
        ));
    }
    while k < count
        invariant
            k <= count,
            pos <= bytes@.len(),
            spec_dec_u64(bytes@, 0) == Some((count, p1 as int)),
            spec_dec_records(bytes@, p1 as int, count as nat) == (match spec_dec_records(
                bytes@,
                pos as int,
                (count - k) as nat,
            ) {
                None => None::<(Seq<(Seq<u8>, SocketAddress)>, int)>,
                Some((rest, p2)) => Some((models(daemons@) + rest, p2)),
            }),
        decreases count - k,
    {
        match read_record(bytes, pos) {
            None => {
                return Err(JokerError::ConfigCorrupt);
            },
            Some((rec, p)) => {
                let ghost old_models = models(daemons@);
                daemons.push(rec);
                pos = p;
                k = k + 1;
                proof {
                    assert(models(daemons@) =~= old_models + seq![rec.model()]);
                    match spec_dec_records(bytes@, pos as int, (count - k) as nat) {
                        None => {},
                        Some((rest, p2)) => {
                            assert(old_models + (seq![rec.model()] + rest) =~= models(
                                daemons@,
                            ) + rest);
                        },
                    }
                }
            },
        }
    }
    proof {
        assert(models(daemons@) + Seq::<(Seq<u8>, SocketAddress)>::empty() =~= models(
            daemons@,
        ));
    }
    if !names_unique(&daemons) {
        return Err(JokerError::ConfigCorrupt);
    }
    if pos < bytes.len() {
        let tag = bytes[pos];
        if tag == 0 {
            if pos + 1 == bytes.len() {
                let st = RegistryState { daemons, active_daemon: None };
                proof {
                    assert(st.daemons_model() =~= models(st.daemons@));
                }
                Ok(st)
            } else {
                Err(JokerError::ConfigCorrupt)
            }
        } else if tag == 1 {
            match read_record(bytes, pos + 1) {
                None => Err(JokerError::ConfigCorrupt),
                Some((rec, p3)) => {
                    if p3 == bytes.len() {
                        let st = RegistryState { daemons, active_daemon: Some(rec) };
                        proof {
                            assert(st.daemons_model() =~= models(st.daemons@));
                        }
                        Ok(st)
                    } else {
                        Err(JokerError::ConfigCorrupt)
                    }
                },
            }
        } else {
            Err(JokerError::ConfigCorrupt)
        }
    } else {
        Err(JokerError::ConfigCorrupt)
    }
}

/// An image that holds `x + y` at `pos` holds `x` there and `y` right after.
proof fn lemma_subrange_split(b: Seq<u8>, pos: int, x: Seq<u8>, y: Seq<u8>)
    requires
        0 <= pos,
        pos + x.len() + y.len() <= b.len(),
        b.subrange(pos, pos + x.len() + y.len()) == x + y,
    ensures
        b.subrange(pos, pos + x.len()) == x,
        b.subrange(pos + x.len(), pos + x.len() + y.len()) == y,
{
    assert forall|i: int| 0 <= i < x.len() implies b.subrange(pos, pos + x.len() as int)[i]
        == x[i] by {
        assert(b.subrange(pos, pos + x.len() + y.len() as int)[i] == b[pos + i]);
        assert(b.subrange(pos, pos + x.len() as int)[i] == b[pos + i]);
        assert((x + y)[i] == x[i]);
    }
    assert(b.subrange(pos, pos + x.len() as int) =~= x);
    assert forall|i: int| 0 <= i < y.len() implies b.subrange(
        pos + x.len(),
        pos + x.len() + y.len() as int,
    )[i] == y[i] by {
        assert(b.subrange(pos, pos + x.len() + y.len() as int)[x.len() + i] == b[pos + x.len()
            + i]);
        assert(b.subrange(pos + x.len(), pos + x.len() + y.len() as int)[i] == b[pos + x.len()
            + i]);
        assert((x + y)[x.len() + i] == y[i]);
    }
    assert(b.subrange(pos + x.len(), pos + x.len() + y.len() as int) =~= y);
}

/// An image that holds the eight bytes of `n` at `pos` reads back as `n`.
proof fn lemma_dec_u64_at(b: Seq<u8>, pos: int, n: u64)
    requires
        0 <= pos,
        pos + 8 <= b.len(),
        b.subrange(pos, pos + 8) == spec_le64(n),
    ensures
        spec_dec_u64(b, pos) == Some((n, pos + 8)),
{
    lemma_le64_round_trip(n);
}

/// An image that holds one address's bytes at `pos` reads back as that
/// address.
#[verifier::rlimit(80)]
proof fn lemma_dec_ip_at(b: Seq<u8>, pos: int, ip: IpAddress)
    requires
        0 <= pos,
        pos + spec_enc_ip(ip).len() <= b.len(),
        b.subrange(pos, pos + spec_enc_ip(ip).len() as int) == spec_enc_ip(ip),
    ensures
        spec_dec_ip(b, pos) == Some((ip, pos + spec_enc_ip(ip).len() as int)),
{
    let e = spec_enc_ip(ip);
    match ip {
        IpAddress::V4(x0, x1, x2, x3) => {
            assert(e.len() == 5);
            assert(b.subrange(pos, pos + 5)[0] == b[pos]);
            assert(b.subrange(pos, pos + 5)[1] == b[pos + 1]);
            assert(b.subrange(pos, pos + 5)[2] == b[pos + 2]);
            assert(b.subrange(pos, pos + 5)[3] == b[pos + 3]);
            assert(b.subrange(pos, pos + 5)[4] == b[pos + 4]);
            assert(b[pos] == 4 && b[pos + 1] == x0 && b[pos + 2] == x1 && b[pos + 3] == x2
                && b[pos + 4] == x3);
        },
        IpAddress::V6(g0, g1, g2, g3, g4, g5, g6, g7) => {
            assert(e.len() == 17);
            assert(b.subrange(pos, pos + 17)[0] == b[pos]);
            assert(b[pos] == 6);
            assert(b.subrange(pos + 1, pos + 3) =~= spec_le16(g0)) by {
                assert(b.subrange(pos, pos + 17)[1] == b[pos + 1]);
                assert(b.subrange(pos, pos + 17)[2] == b[pos + 2]);
                assert(b.subrange(pos + 1, pos + 3)[0] == b[pos + 1]);
                assert(b.subrange(pos + 1, pos + 3)[1] == b[pos + 2]);
            }
            assert(b.subrange(pos + 3, pos + 5) =~= spec_le16(g1)) by {
                assert(b.subrange(pos, pos + 17)[3] == b[pos + 3]);
                assert(b.subrange(pos, pos + 17)[4] == b[pos + 4]);
                assert(b.subrange(pos + 3, pos + 5)[0] == b[pos + 3]);
                assert(b.subrange(pos + 3, pos + 5)[1] == b[pos + 4]);
            }
            assert(b.subrange(pos + 5, pos + 7) =~= spec_le16(g2)) by {
                assert(b.subrange(pos, pos + 17)[5] == b[pos + 5]);
                assert(b.subrange(pos, pos + 17)[6] == b[pos + 6]);
                assert(b.subrange(pos + 5, pos + 7)[0] == b[pos + 5]);
                assert(b.subrange(pos + 5, pos + 7)[1] == b[pos + 6]);
            }
            assert(b.subrange(pos + 7, pos + 9) =~= spec_le16(g3)) by {
                assert(b.subrange(pos, pos + 17)[7] == b[pos + 7]);
                assert(b.subrange(pos, pos + 17)[8] == b[pos + 8]);
                assert(b.subrange(pos + 7, pos + 9)[0] == b[pos + 7]);
                assert(b.subrange(pos + 7, pos + 9)[1] == b[pos + 8]);
            }
            assert(b.subrange(pos + 9, pos + 11) =~= spec_le16(g4)) by {
                assert(b.subrange(pos, pos + 17)[9] == b[pos + 9]);
                assert(b.subrange(pos, pos + 17)[10] == b[pos + 10]);
                assert(b.subrange(pos + 9, pos + 11)[0] == b[pos + 9]);
                assert(b.subrange(pos + 9, pos + 11)[1] == b[pos + 10]);
            }
            assert(b.subrange(pos + 11, pos + 13) =~= spec_le16(g5)) by {
                assert(b.subrange(pos, pos + 17)[11] == b[pos + 11]);
                assert(b.subrange(pos, pos + 17)[12] == b[pos + 12]);
                assert(b.subrange(pos + 11, pos + 13)[0] == b[pos + 11]);
                assert(b.subrange(pos + 11, pos + 13)[1] == b[pos + 12]);
            }
            assert(b.subrange(pos + 13, pos + 15) =~= spec_le16(g6)) by {
                assert(b.subrange(pos, pos + 17)[13] == b[pos + 13]);
                assert(b.subrange(pos, pos + 17)[14] == b[pos + 14]);
                assert(b.subrange(pos + 13, pos + 15)[0] == b[pos + 13]);
                assert(b.subrange(pos + 13, pos + 15)[1] == b[pos + 14]);
            }
            assert(b.subrange(pos + 15, pos + 17) =~= spec_le16(g7)) by {
                assert(b.subrange(pos, pos + 17)[15] == b[pos + 15]);
                assert(b.subrange(pos, pos + 17)[16] == b[pos + 16]);
                assert(b.subrange(pos + 15, pos + 17)[0] == b[pos + 15]);
                assert(b.subrange(pos + 15, pos + 17)[1] == b[pos + 16]);
            }
            lemma_le16_round_trip(g0);
            lemma_le16_round_trip(g1);
            lemma_le16_round_trip(g2);
            lemma_le16_round_trip(g3);
            lemma_le16_round_trip(g4);
            lemma_le16_round_trip(g5);
            lemma_le16_round_trip(g6);
            lemma_le16_round_trip(g7);
        },
    }
}

/// An image that holds one record's bytes at `pos` reads back as that record.
#[verifier::rlimit(50)]
proof fn lemma_dec_record_at(b: Seq<u8>, pos: int, name: Seq<u8>, a: SocketAddress)
    requires
        0 <= pos,
        name.len() <= u64::MAX,
        pos + spec_enc_record(name, a).len() <= b.len(),
        b.subrange(pos, pos + spec_enc_record(name, a).len() as int) == spec_enc_record(
            name,
            a,
        ),
    ensures
        spec_dec_record(b, pos) == Some(
            ((name, a), pos + spec_enc_record(name, a).len() as int),
        ),
{
    let n = name.len() as u64;
    let ip_port = spec_enc_ip(a.ip) + spec_le16(a.port);
    assert(b.subrange(pos, pos + spec_enc_record(name, a).len() as int) =~= b.subrange(
        pos,
        pos + 8 + (name.len() + ip_port.len()),
    ));
    assert(spec_le64(n) + (name + ip_port) =~= spec_enc_record(name, a));
    lemma_subrange_split(b, pos, spec_le64(n), name + ip_port);
    lemma_dec_u64_at(b, pos, n);
    let p1 = pos + 8;
    lemma_subrange_split(b, p1, name, ip_port);
    assert(b.subrange(p1, p1 + n) == name);
    let q = p1 + name.len();
    lemma_subrange_split(b, q, spec_enc_ip(a.ip), spec_le16(a.port));
    lemma_dec_ip_at(b, q, a.ip);
    lemma_le16_round_trip(a.port);
}

/// An image that holds a run of records at `pos` reads back as that run.
proof fn lemma_dec_records_at(b: Seq<u8>, pos: int, d: Seq<(Seq<u8>, SocketAddress)>)
    requires
        0 <= pos,
        forall|i: int| 0 <= i < d.len() ==> (#[trigger] d[i]).0.len() <= u64::MAX,
        pos + spec_enc_records(d).len() <= b.len(),
        b.subrange(pos, pos + spec_enc_records(d).len()) == spec_enc_records(d),
    ensures
        spec_dec_records(b, pos, d.len() as nat) == Some(
            (d, pos + spec_enc_records(d).len()),
        ),
    decreases d.len(),
{
    if d.len() == 0 {
        assert(d =~= Seq::<(Seq<u8>, SocketAddress)>::empty());
    } else {
        let first = spec_enc_record(d[0].0, d[0].1);
        let rest = spec_enc_records(d.drop_first());
        assert(spec_enc_records(d) == first + rest);
        lemma_subrange_split(b, pos, first, rest);
        lemma_dec_record_at(b, pos, d[0].0, d[0].1);
        assert(forall|i: int|
            0 <= i < d.drop_first().len() ==> (#[trigger] d.drop_first()[i]).0.len()
                <= u64::MAX);
        lemma_dec_records_at(b, pos + first.len(), d.drop_first());
        assert(seq![d[0]] + d.drop_first() =~= d);
    }
}

/// The count and the records of an image read back as what was encoded,
/// whatever bytes follow them.
#[verifier::rlimit(50)]
proof fn lemma_store_prefix(d: Seq<(Seq<u8>, SocketAddress)>, tail: Seq<u8>)
    requires
        d.len() <= u64::MAX,
        forall|i: int| 0 <= i < d.len() ==> (#[trigger] d[i]).0.len() <= u64::MAX,
    ensures
        spec_dec_u64(spec_le64(d.len() as u64) + spec_enc_records(d) + tail, 0) == Some(
            (d.len() as u64, 8int),
        ),
        spec_dec_records(spec_le64(d.len() as u64) + spec_enc_records(d) + tail, 8, d.len())
            == Some((d, 8 + spec_enc_records(d).len() as int)),
        (spec_le64(d.len() as u64) + spec_enc_records(d) + tail).subrange(
            8 + spec_enc_records(d).len() as int,
            (spec_le64(d.len() as u64) + spec_enc_records(d) + tail).len() as int,
        ) == tail,
        (spec_le64(d.len() as u64) + spec_enc_records(d) + tail).len() == 8
            + spec_enc_records(d).len() + tail.len(),
{
    let head = spec_le64(d.len() as u64);
    let recs = spec_enc_records(d);
    let b = head + recs + tail;
    assert(b.subrange(0, head.len() + (recs + tail).len() as int) =~= b);
    assert(b =~= head + (recs + tail));
    lemma_subrange_split(b, 0, head, recs + tail);
    lemma_dec_u64_at(b, 0, d.len() as u64);
    lemma_subrange_split(b, 8, recs, tail);
    lemma_dec_records_at(b, 8, d);
}

/// Round trip for an image with no active daemon.
#[verifier::rlimit(50)]
proof fn lemma_store_round_trip_none(d: Seq<(Seq<u8>, SocketAddress)>)
    requires
        unique_names(d),
        d.len() <= u64::MAX,
        forall|i: int| 0 <= i < d.len() ==> (#[trigger] d[i]).0.len() <= u64::MAX,
    ensures
        spec_dec_state(spec_enc_state(d, None)) == Some(
            (d, None::<(Seq<u8>, SocketAddress)>),
        ),
{
    let tail = seq![0u8];
    let b = spec_enc_state(d, None);
    lemma_store_prefix(d, tail);
    let p2 = 8 + spec_enc_records(d).len() as int;
    assert(b.subrange(p2, b.len() as int)[0] == b[p2]);
    assert(b[p2] == 0);
    assert(p2 + 1 == b.len());
}

/// Round trip for an image with an active daemon.
#[verifier::rlimit(50)]
proof fn lemma_store_round_trip_some(d: Seq<(Seq<u8>, SocketAddress)>, p: (Seq<u8>, SocketAddress))
    requires
        unique_names(d),
        d.len() <= u64::MAX,
        forall|i: int| 0 <= i < d.len() ==> (#[trigger] d[i]).0.len() <= u64::MAX,
        p.0.len() <= u64::MAX,
    ensures
        spec_dec_state(spec_enc_state(d, Some(p))) == Some((d, Some(p))),
{
    let tail = seq![1u8] + spec_enc_record(p.0, p.1);
    let b = spec_enc_state(d, Some(p));
    lemma_store_prefix(d, tail);
    let p2 = 8 + spec_enc_records(d).len() as int;
    lemma_subrange_split(b, p2, seq![1u8], spec_enc_record(p.0, p.1));
    assert(b.subrange(p2, p2 + 1)[0] == b[p2]);
    assert(b[p2] == 1);
    lemma_dec_record_at(b, p2 + 1, p.0, p.1);
    assert(p2 + 1 + spec_enc_record(p.0, p.1).len() == b.len());
}

/// Round trip: decoding an encoded registry yields exactly that registry,
/// whatever it holds, so long as its counts fit the length prefixes.
pub proof fn lemma_store_round_trip(
    d: Seq<(Seq<u8>, SocketAddress)>,
    active: Option<(Seq<u8>, SocketAddress)>,
)
    requires
        unique_names(d),
        d.len() <= u64::MAX,
        forall|i: int| 0 <= i < d.len() ==> (#[trigger] d[i]).0.len() <= u64::MAX,
        match active {
            Some(p) => p.0.len() <= u64::MAX,
            None => true,
        },
    ensures
        spec_dec_state(spec_enc_state(d, active)) == Some((d, active)),
{
    match active {
        None => {
            lemma_store_round_trip_none(d);
        },
        Some(p) => {
            lemma_store_round_trip_some(d, p);
        },
    }
}

/// Registering a fresh name, saving, and loading yields a registry in which
/// that name resolves to exactly the address it was registered with.
pub proof fn lemma_add_save_load(
    d: Seq<(Seq<u8>, SocketAddress)>,
    active: Option<(Seq<u8>, SocketAddress)>,
    name: Seq<u8>,
    addr: SocketAddress,
)
    requires
        unique_names(d),
        !contains_name(d, name),
        d.len() + 1 <= u64::MAX,
        name.len() <= u64::MAX,
        forall|i: int| 0 <= i < d.len() ==> (#[trigger] d[i]).0.len() <= u64::MAX,
        match active {
            Some(p) => p.0.len() <= u64::MAX,
            None => true,
        },
    ensures
        spec_dec_state(spec_enc_state(insert_absent(d, name, addr), active)) matches Some(st)
            && st.0 == insert_absent(d, name, addr) && st.1 == active && lookup(st.0, name)
            == Some(addr),
{
    let d2 = insert_absent(d, name, addr);
    lemma_lookup_absent(d, name);
    assert(d2 == d.push((name, addr)));
    assert(unique_names(d2));
    lemma_store_round_trip(d2, active);
    lemma_add_then_lookup(d, name, addr);
}

/// Switching to a registered daemon, saving, and loading yields a registry
/// whose active daemon is exactly that `(name, address)` pair.
pub proof fn lemma_checkout_save_load(
    d: Seq<(Seq<u8>, SocketAddress)>,
    name: Seq<u8>,
    addr: SocketAddress,
)
    requires
        unique_names(d),
        lookup(d, name) == Some(addr),
        d.len() <= u64::MAX,
        name.len() <= u64::MAX,
        forall|i: int| 0 <= i < d.len() ==> (#[trigger] d[i]).0.len() <= u64::MAX,
    ensures
        spec_dec_state(spec_enc_state(d, Some((name, addr)))) == Some((d, Some((name, addr)))),
{
    lemma_store_round_trip(d, Some((name, addr)));
}

} // verus!
