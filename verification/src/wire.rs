//! The wire protocol for shipping artifacts.
//!
//! One artifact travels as three length-prefixed fields, in order: the
//! display name, the payload, and the companion manifest. Each field is an
//! eight-byte unsigned little-endian byte count followed by that many raw
//! bytes. There is no preamble, trailer, checksum or acknowledgement; the
//! batch ends when the connection closes.

use vstd::prelude::*;
use vstd::slice::slice_to_vec;
use crate::errors::JokerError;
use crate::text::{part_views, split_bytes, split_on, lemma_split_bytes_nonempty};

verus! {

/// The eight bytes of `n`, least significant first.
pub open spec fn spec_le64(n: u64) -> Seq<u8> {
    seq![
        (n & 0xff) as u8,
        ((n >> 8) & 0xff) as u8,
        ((n >> 16) & 0xff) as u8,
        ((n >> 24) & 0xff) as u8,
        ((n >> 32) & 0xff) as u8,
        ((n >> 40) & 0xff) as u8,
        ((n >> 48) & 0xff) as u8,
        ((n >> 56) & 0xff) as u8,
    ]
}

/// The value eight little-endian bytes stand for.
pub open spec fn spec_le64_value(b: Seq<u8>) -> u64
    recommends
        b.len() == 8,
{
    (b[0] as u64) | ((b[1] as u64) << 8) | ((b[2] as u64) << 16) | ((b[3] as u64) << 24) | ((
    b[4] as u64) << 32) | ((b[5] as u64) << 40) | ((b[6] as u64) << 48) | ((b[7] as u64) << 56)
}

/// Reading back the eight little-endian bytes of `n` yields `n`.
pub proof fn lemma_le64_round_trip(n: u64)
    ensures
        spec_le64_value(spec_le64(n)) == n,
{
    assert(((n & 0xff) as u8 as u64) | (((n >> 8) & 0xff) as u8 as u64) << 8 | (((n >> 16)
        & 0xff) as u8 as u64) << 16 | (((n >> 24) & 0xff) as u8 as u64) << 24 | (((n >> 32)
        & 0xff) as u8 as u64) << 32 | (((n >> 40) & 0xff) as u8 as u64) << 40 | (((n >> 48)
        & 0xff) as u8 as u64) << 48 | (((n >> 56) & 0xff) as u8 as u64) << 56 == n)
        by (bit_vector);
}

/// The eight little-endian bytes of `n`, as `spec_le64` describes.
pub fn le64_bytes(n: u64) -> (r: Vec<u8>)
    ensures
        r@ == spec_le64(n),
{
    proof {
        assert((n & 0xff) < 256 && ((n >> 8) & 0xff) < 256 && ((n >> 16) & 0xff) < 256 && ((n
            >> 24) & 0xff) < 256 && ((n >> 32) & 0xff) < 256 && ((n >> 40) & 0xff) < 256 && ((n
            >> 48) & 0xff) < 256 && ((n >> 56) & 0xff) < 256) by (bit_vector);
    }
    let mut r: Vec<u8> = Vec::new();
    r.push((n & 0xff) as u8);
    r.push(((n >> 8) & 0xff) as u8);
    r.push(((n >> 16) & 0xff) as u8);
    r.push(((n >> 24) & 0xff) as u8);
    r.push(((n >> 32) & 0xff) as u8);
    r.push(((n >> 40) & 0xff) as u8);
    r.push(((n >> 48) & 0xff) as u8);
    r.push(((n >> 56) & 0xff) as u8);
    proof {
        assert(r@ =~= spec_le64(n));
    }
    r
}

/// The value eight little-endian bytes stand for, as `spec_le64_value`.
pub fn le64_value(b: &[u8]) -> (r: u64)
    requires
        b@.len() == 8,
    ensures
        r == spec_le64_value(b@),
{
    (b[0] as u64) | ((b[1] as u64) << 8) | ((b[2] as u64) << 16) | ((b[3] as u64) << 24) | ((
    b[4] as u64) << 32) | ((b[5] as u64) << 40) | ((b[6] as u64) << 48) | ((b[7] as u64) << 56)
}

/// One frame: the byte count as eight little-endian bytes, then the bytes.
pub open spec fn spec_frame(data: Seq<u8>) -> Seq<u8>
    recommends
        data.len() <= u64::MAX,
{
    spec_le64(data.len() as u64) + data
}

/// The full wire image of one artifact: name frame, payload frame, manifest
/// frame, in that order.
pub open spec fn spec_artifact_frames(name: Seq<u8>, payload: Seq<u8>, manifest: Seq<u8>) -> Seq<
    u8,
> {
    spec_frame(name) + spec_frame(payload) + spec_frame(manifest)
}

/// One artifact ready to ship: display name, payload bytes, manifest bytes.
#[derive(Debug, PartialEq, Eq)]
pub struct ArtifactFrame {
    pub name: Vec<u8>,
    pub payload: Vec<u8>,
    pub manifest: Vec<u8>,
}

/// Appends one frame of `data` to `out`.
fn push_frame(out: &mut Vec<u8>, data: &[u8])
    ensures
        final(out)@ == old(out)@ + spec_frame(data@),
{
    let mut prefix = le64_bytes(data.len() as u64);
    out.append(&mut prefix);
    let mut body = slice_to_vec(data);
    out.append(&mut body);
    proof {
        assert(final(out)@ =~= old(out)@ + spec_frame(data@));
    }
}

/// The bytes that ship one artifact, exactly `spec_artifact_frames` of its
/// three fields.
pub fn artifact_frames(a: &ArtifactFrame) -> (r: Vec<u8>)
    ensures
        r@ == spec_artifact_frames(a.name@, a.payload@, a.manifest@),
{
    let mut r: Vec<u8> = Vec::new();
    push_frame(&mut r, a.name.as_slice());
    push_frame(&mut r, a.payload.as_slice());
    push_frame(&mut r, a.manifest.as_slice());
    proof {
        assert(r@ =~= spec_artifact_frames(a.name@, a.payload@, a.manifest@));
    }
    r
}

/// The wire image of an artifact is its three length prefixes and fields at
/// fixed offsets: 24 bytes of prefixes plus the three fields, each prefix
/// holding the length of the field that follows it.
pub proof fn lemma_artifact_wire_layout(name: Seq<u8>, payload: Seq<u8>, manifest: Seq<u8>)
    requires
        name.len() <= u64::MAX,
        payload.len() <= u64::MAX,
        manifest.len() <= u64::MAX,
    ensures
        spec_artifact_frames(name, payload, manifest).len() == 24 + name.len() + payload.len()
            + manifest.len(),
        spec_artifact_frames(name, payload, manifest).subrange(0, 8) == spec_le64(
            name.len() as u64,
        ),
        spec_artifact_frames(name, payload, manifest).subrange(8, 8 + name.len() as int) == name,
        spec_artifact_frames(name, payload, manifest).subrange(
            8 + name.len() as int,
            16 + name.len() as int,
        ) == spec_le64(payload.len() as u64),
        spec_artifact_frames(name, payload, manifest).subrange(
            16 + name.len() as int,
            16 + name.len() + payload.len() as int,
        ) == payload,
        spec_artifact_frames(name, payload, manifest).subrange(
            16 + name.len() + payload.len() as int,
            24 + name.len() + payload.len() as int,
        ) == spec_le64(manifest.len() as u64),
        spec_artifact_frames(name, payload, manifest).subrange(
            24 + name.len() + payload.len() as int,
            24 + name.len() + payload.len() + manifest.len() as int,
        ) == manifest,
{
    let w = spec_artifact_frames(name, payload, manifest);
    assert(w.subrange(0, 8) =~= spec_le64(name.len() as u64));
    assert(w.subrange(8, 8 + name.len() as int) =~= name);
    assert(w.subrange(8 + name.len() as int, 16 + name.len() as int) =~= spec_le64(payload.len() as u64));
    assert(w.subrange(16 + name.len() as int, 16 + name.len() + payload.len() as int) =~= payload);
    assert(w.subrange(
        16 + name.len() + payload.len() as int,
        24 + name.len() + payload.len() as int,
    ) =~= spec_le64(manifest.len() as u64));
    assert(w.subrange(
        24 + name.len() + payload.len() as int,
        24 + name.len() + payload.len() + manifest.len() as int,
    ) =~= manifest);
}

/// The artifact's display name: the final path segment, the bytes after the
/// last `/` (all of the path when it has no `/`).
pub open spec fn spec_final_segment(path: Seq<u8>) -> Seq<u8> {
    split_bytes(path, 47).last()
}

/// Derives the display name from an artifact path. An empty final segment
/// (an empty path, or one ending in `/`) has no usable name and is
/// `MalformedPath`.
pub fn artifact_name(path: &[u8]) -> (r: Result<Vec<u8>, JokerError>)
    ensures
        match r {
            Ok(n) => n@ == spec_final_segment(path@) && n@.len() > 0,
            Err(e) => e == JokerError::MalformedPath && spec_final_segment(path@).len() == 0,
        },
{
    let mut parts = split_on(path, 47);
    proof {
        lemma_split_bytes_nonempty(path@, 47);
        assert(part_views(parts@).len() == parts@.len());
        assert(part_views(parts@).last() == parts@.last()@);
    }
    let last = parts.pop().unwrap();
    if last.len() == 0 {
        Err(JokerError::MalformedPath)
    } else {
        Ok(last)
    }
}

/// The companion manifest's path: the artifact path with `.joker` appended.
pub open spec fn spec_manifest_suffix() -> Seq<u8> {
    seq![46u8, 106u8, 111u8, 107u8, 101u8, 114u8]
}

/// Appends the fixed manifest suffix `.joker` to an artifact path.
pub fn manifest_path(path: &[u8]) -> (r: Vec<u8>)
    ensures
        r@ == path@ + spec_manifest_suffix(),
{
    let mut r = slice_to_vec(path);
    r.push(46);
    r.push(106);
    r.push(111);
    r.push(107);
    r.push(101);
    r.push(114);
    proof {
        assert(r@ =~= path@ + spec_manifest_suffix());
    }
    r
}

} // verus!
