//! Wire contract of the three kernel control operations.
//!
//! The kernel's `btrfs_ioctl_vol_args_v2` request is 4096 bytes: a signed
//! 64-bit source handle, a transaction id, a flag word, a 32-byte union that
//! stays zeroed here, and a 4040-byte name buffer whose content must end with
//! a NUL terminator. The metadata-query response
//! (`btrfs_ioctl_get_subvol_info_args`) is 504 bytes; this layer reads the
//! generation counter, the two uuids, and the creation transaction id out of
//! it. All fields are little-endian.

use vstd::prelude::*;

use crate::Error;
use crate::detect::SubvolumeMetadata;

verus! {

/// Capacity of the request's name buffer, terminator included.
pub const NAME_BUF_LEN: usize = 4040;

/// Size in bytes of a create/destroy request.
pub const VOL_ARGS_V2_LEN: usize = 4096;

/// Size in bytes of a metadata-query response.
pub const SUBVOL_INFO_LEN: usize = 504;

/// Flag bit requesting a read-only snapshot.
pub const SUBVOL_RDONLY_FLAG: u64 = 2;

/// The eight little-endian bytes of a 64-bit value.
pub open spec fn le64(v: u64) -> Seq<u8> {
    seq![
        (v % 256) as u8,
        ((v / 256) % 256) as u8,
        ((v / 65536) % 256) as u8,
        ((v / 16777216) % 256) as u8,
        ((v / 4294967296) % 256) as u8,
        ((v / 1099511627776) % 256) as u8,
        ((v / 281474976710656) % 256) as u8,
        ((v / 72057594037927936) % 256) as u8,
    ]
}

/// The value of the eight little-endian bytes at `off`.
pub open spec fn le64_at(s: Seq<u8>, off: int) -> int {
    s[off] + 256 * (s[off + 1] + 256 * (s[off + 2] + 256 * (s[off + 3] + 256 * (s[off + 4]
        + 256 * (s[off + 5] + 256 * (s[off + 6] + 256 * s[off + 7]))))))
}

/// A name fits the buffer iff it is shorter than the capacity (one byte is
/// owed to the terminator) and holds no embedded NUL byte.
pub open spec fn valid_name_bytes(name: Seq<u8>) -> bool {
    name.len() < NAME_BUF_LEN && (forall|i: int| 0 <= i < name.len() ==> name[i] != 0)
}

/// The full name buffer: the name's bytes, then zero padding.
pub open spec fn name_buf_bytes(name: Seq<u8>) -> Seq<u8> {
    Seq::new(NAME_BUF_LEN as nat, |i: int| if i < name.len() { name[i] } else { 0u8 })
}

/// The encoded create-snapshot request: source handle, zero transaction id,
/// flag word, zeroed union, name buffer.
pub open spec fn snap_create_request_bytes(src_fd: u64, readonly: bool, name: Seq<u8>) -> Seq<u8> {
    le64(src_fd) + le64(0) + le64(if readonly { SUBVOL_RDONLY_FLAG as u64 } else { 0u64 })
        + Seq::new(32, |i: int| 0u8) + name_buf_bytes(name)
}

/// The encoded destroy-subvolume request: the subvolume is identified by the
/// parent directory the call is issued on plus the name alone, so every
/// numeric field stays zero.
pub open spec fn snap_destroy_request_bytes(name: Seq<u8>) -> Seq<u8> {
    le64(0) + le64(0) + le64(0) + Seq::new(32, |i: int| 0u8) + name_buf_bytes(name)
}

/// Appends the eight little-endian bytes of `v`.
fn push_le64(out: &mut Vec<u8>, v: u64)
    ensures
        final(out)@ == old(out)@ + le64(v),
{
    out.push((v % 256) as u8);
    out.push(((v / 256) % 256) as u8);
    out.push(((v / 65536) % 256) as u8);
    out.push(((v / 16777216) % 256) as u8);
    out.push(((v / 4294967296) % 256) as u8);
    out.push(((v / 1099511627776) % 256) as u8);
    out.push(((v / 281474976710656) % 256) as u8);
    out.push(((v / 72057594037927936) % 256) as u8);
    assert(out@ =~= old(out)@ + le64(v));
}

/// Appends the name buffer: the name, then zeros up to the capacity.
fn push_name_buf(out: &mut Vec<u8>, name: &Vec<u8>)
    requires
        valid_name_bytes(name@),
    ensures
        final(out)@ == old(out)@ + name_buf_bytes(name@),
{
    let mut i: usize = 0;
    while i < name.len()
        invariant
            0 <= i <= name@.len(),
            valid_name_bytes(name@),
            out@.len() == old(out)@.len() + i,
            out@ == old(out)@ + name_buf_bytes(name@).take(i as int),
        decreases name@.len() - i,
    {
        out.push(name[i]);
        assert(out@ =~= old(out)@ + name_buf_bytes(name@).take(i + 1));
        i = i + 1;
    }
    while i < NAME_BUF_LEN
        invariant
            name@.len() <= i <= NAME_BUF_LEN,
            valid_name_bytes(name@),
            out@.len() == old(out)@.len() + i,
            out@ == old(out)@ + name_buf_bytes(name@).take(i as int),
        decreases NAME_BUF_LEN - i,
    {
        out.push(0u8);
        assert(out@ =~= old(out)@ + name_buf_bytes(name@).take(i + 1));
        i = i + 1;
    }
    assert(name_buf_bytes(name@).take(NAME_BUF_LEN as int) =~= name_buf_bytes(name@));
}

/// True iff some byte of `name` is NUL.
fn contains_zero(name: &Vec<u8>) -> (r: bool)
    ensures
        r <==> exists|i: int| 0 <= i < name@.len() && name@[i] == 0,
{
    let mut i: usize = 0;
    while i < name.len()
        invariant
            0 <= i <= name@.len(),
            forall|j: int| 0 <= j < i ==> name@[j] != 0,
        decreases name@.len() - i,
    {
        if name[i] == 0 {
            return true;
        }
        i = i + 1;
    }
    false
}

/// Encodes a name into a full name buffer, rejecting names with an embedded
/// NUL byte and names too long to leave room for the terminator.
pub fn encode_name_buf(name: &Vec<u8>) -> (r: Result<Vec<u8>, Error>)
    ensures
        r is Ok <==> valid_name_bytes(name@),
        r matches Ok(buf) ==> buf@ == name_buf_bytes(name@),
        r is Err ==> (r matches Err(e) && e is InvalidInput),
{
    if contains_zero(name) || name.len() >= NAME_BUF_LEN {
        return Err(Error::InvalidInput);
    }
    let mut out: Vec<u8> = Vec::new();
    push_name_buf(&mut out, name);
    assert(out@ =~= name_buf_bytes(name@));
    Ok(out)
}

/// The name a buffer holds: its bytes up to the first NUL.
pub open spec fn cut_at_zero(s: Seq<u8>) -> Seq<u8>
    decreases s.len(),
{
    if s.len() == 0 {
        s
    } else if s[0] == 0 {
        Seq::empty()
    } else {
        seq![s[0]] + cut_at_zero(s.skip(1))
    }
}

proof fn lemma_cut_at_zero_prefix(s: Seq<u8>, j: int)
    requires
        0 <= j < s.len(),
        forall|i: int| 0 <= i < j ==> s[i] != 0,
        s[j] == 0,
    ensures
        cut_at_zero(s) == s.take(j),
    decreases j,
{
    if j == 0 {
        assert(cut_at_zero(s) =~= s.take(0));
    } else {
        lemma_cut_at_zero_prefix(s.skip(1), j - 1);
        assert(cut_at_zero(s) == seq![s[0]] + s.skip(1).take(j - 1));
        assert(seq![s[0]] + s.skip(1).take(j - 1) =~= s.take(j));
    }
}

/// Decodes a name buffer back into the name it holds: the bytes before the
/// first NUL.
pub fn decode_name_buf(buf: &Vec<u8>) -> (r: Vec<u8>)
    requires
        buf@.len() == NAME_BUF_LEN,
        exists|i: int| 0 <= i < buf@.len() && buf@[i] == 0,
    ensures
        r@ == cut_at_zero(buf@),
{
    let mut out: Vec<u8> = Vec::new();
    let mut i: usize = 0;
    while i < buf.len()
        invariant
            0 <= i <= buf@.len(),
            exists|k: int| 0 <= k < buf@.len() && buf@[k] == 0,
            forall|j: int| 0 <= j < i ==> buf@[j] != 0,
            out@ == buf@.take(i as int),
        decreases buf@.len() - i,
    {
        if buf[i] == 0 {
            proof {
                lemma_cut_at_zero_prefix(buf@, i as int);
            }
            return out;
        }
        out.push(buf[i]);
        assert(out@ =~= buf@.take(i + 1));
        i = i + 1;
    }
    proof {
        let k = choose|k: int| 0 <= k < buf@.len() && buf@[k] == 0;
        assert(false);
    }
    out
}

/// Encoding a valid name and decoding the buffer gives the name back: the
/// bounded-string pair round-trips.
pub proof fn lemma_name_buf_round_trip(name: Seq<u8>)
    requires
        valid_name_bytes(name),
    ensures
        cut_at_zero(name_buf_bytes(name)) == name,
{
    let buf = name_buf_bytes(name);
    lemma_cut_at_zero_prefix(buf, name.len() as int);
    assert(buf.take(name.len() as int) =~= name);
}

/// Encodes a create-snapshot request: the source subvolume handle, the
/// read-only flag when asked for, and the snapshot name. Rejects invalid
/// names; everything else in the request is fixed.
pub fn encode_snap_create_request(src_fd: u64, readonly: bool, name: &Vec<u8>) -> (r: Result<
    Vec<u8>,
    Error,
>)
    requires
        src_fd <= 0x7fff_ffff_ffff_ffff,
    ensures
        r is Ok <==> valid_name_bytes(name@),
        r matches Ok(buf) ==> buf@ == snap_create_request_bytes(src_fd, readonly, name@)
            && buf@.len() == VOL_ARGS_V2_LEN,
        r is Err ==> (r matches Err(e) && e is InvalidInput),
{
    if contains_zero(name) || name.len() >= NAME_BUF_LEN {
        return Err(Error::InvalidInput);
    }
    let mut out: Vec<u8> = Vec::new();
    push_le64(&mut out, src_fd);
    push_le64(&mut out, 0);
    if readonly {
        push_le64(&mut out, SUBVOL_RDONLY_FLAG);
    } else {
        push_le64(&mut out, 0);
    }
    let mut i: usize = 0;
    while i < 32
        invariant
            out@.len() == 24 + i,
            0 <= i <= 32,
            out@ == le64(src_fd) + le64(0) + le64(if readonly {
                SUBVOL_RDONLY_FLAG as u64
            } else {
                0u64
            }) + Seq::new(i as nat, |k: int| 0u8),
        decreases 32 - i,
    {
        out.push(0u8);
        assert(out@ =~= le64(src_fd) + le64(0) + le64(
            if readonly {
                SUBVOL_RDONLY_FLAG as u64
            } else {
                0u64
            },
        ) + Seq::new((i + 1) as nat, |k: int| 0u8));
        i = i + 1;
    }
    push_name_buf(&mut out, name);
    assert(out@ =~= snap_create_request_bytes(src_fd, readonly, name@));
    Ok(out)
}

/// Encodes a destroy-subvolume request carrying the name alone.
pub fn encode_snap_destroy_request(name: &Vec<u8>) -> (r: Result<Vec<u8>, Error>)
    ensures
        r is Ok <==> valid_name_bytes(name@),
        r matches Ok(buf) ==> buf@ == snap_destroy_request_bytes(name@) && buf@.len()
            == VOL_ARGS_V2_LEN,
        r is Err ==> (r matches Err(e) && e is InvalidInput),
{
    if contains_zero(name) || name.len() >= NAME_BUF_LEN {
        return Err(Error::InvalidInput);
    }
    let mut out: Vec<u8> = Vec::new();
    push_le64(&mut out, 0);
    push_le64(&mut out, 0);
    push_le64(&mut out, 0);
    let mut i: usize = 0;
    while i < 32
        invariant
            out@.len() == 24 + i,
            0 <= i <= 32,
            out@ == le64(0) + le64(0) + le64(0) + Seq::new(i as nat, |k: int| 0u8),
        decreases 32 - i,
    {
        out.push(0u8);
        assert(out@ =~= le64(0) + le64(0) + le64(0) + Seq::new((i + 1) as nat, |k: int| 0u8));
        i = i + 1;
    }
    push_name_buf(&mut out, name);
    assert(out@ =~= snap_destroy_request_bytes(name@));
    Ok(out)
}

/// Reads the little-endian 64-bit value at `off`.
fn read_le64_at(buf: &Vec<u8>, off: usize) -> (r: u64)
    requires
        off + 8 <= buf@.len(),
    ensures
        r as int == le64_at(buf@, off as int),
{
    let n = buf.len();
    assert(off + 8 <= n);
    let mut r: u64 = buf[off + 7] as u64;
    r = r * 256 + buf[off + 6] as u64;
    r = r * 256 + buf[off + 5] as u64;
    r = r * 256 + buf[off + 4] as u64;
    r = r * 256 + buf[off + 3] as u64;
    r = r * 256 + buf[off + 2] as u64;
    r = r * 256 + buf[off + 1] as u64;
    r = r * 256 + buf[off] as u64;
    r
}

/// Copies `buf[from..from + 16]`.
fn copy_16(buf: &Vec<u8>, from: usize) -> (r: Vec<u8>)
    requires
        from + 16 <= buf@.len(),
    ensures
        r@ == buf@.subrange(from as int, from as int + 16),
{
    let n = buf.len();
    assert(from + 16 <= n);
    let mut out: Vec<u8> = Vec::new();
    let mut i: usize = 0;
    while i < 16
        invariant
            0 <= i <= 16,
            from + 16 <= n == buf@.len(),
            out@ == buf@.subrange(from as int, from as int + i),
        decreases 16 - i,
    {
        out.push(buf[from + i]);
        assert(out@ =~= buf@.subrange(from as int, from as int + i + 1));
        i = i + 1;
    }
    out
}

/// Decodes a metadata-query response: the subvolume's uuid, its parent's
/// uuid, its generation, and its creation transaction id, each at the fixed
/// offset the kernel structure gives them. A response of the wrong size is
/// rejected.
pub fn decode_subvol_info(buf: &Vec<u8>) -> (r: Result<SubvolumeMetadata, Error>)
    ensures
        r is Ok <==> buf@.len() == SUBVOL_INFO_LEN,
        r matches Ok(m) ==> m.wf() && m.generation as int == le64_at(buf@, 280)
            && m.creation_transaction_id as int == le64_at(buf@, 352) && m.uuid@ == buf@.subrange(
            296,
            312,
        ) && m.parent_uuid@ == buf@.subrange(312, 328),
        r is Err ==> (r matches Err(e) && e is InvalidInput),
{
    if buf.len() != SUBVOL_INFO_LEN {
        return Err(Error::InvalidInput);
    }
    let generation = read_le64_at(buf, 280);
    let otransid = read_le64_at(buf, 352);
    let uuid = copy_16(buf, 296);
    let parent_uuid = copy_16(buf, 312);
    Ok(
        SubvolumeMetadata {
            uuid,
            parent_uuid,
            generation,
            creation_transaction_id: otransid,
        },
    )
}

} // verus!
