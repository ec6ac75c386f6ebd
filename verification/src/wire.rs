//! The mathematical model of the SIRD wire format: big-endian integers,
//! header and record layout, and the sequence of results an iterator yields.

use vstd::prelude::*;
use vstd::utf8::{valid_utf8, decode_utf8, encode_utf8};
use crate::error::Error;

verus! {

/// The magic number expected to appear at the start of all SIRD files:
/// the ASCII bytes "SIRD" read as a big-endian 32-bit integer.
pub const MAGIC: u32 = 0x53495244;

/// The value of a byte sequence read as a big-endian unsigned integer.
pub open spec fn be_val(s: Seq<u8>) -> nat
    decreases s.len(),
{
    if s.len() == 0 {
        0
    } else {
        be_val(s.drop_last()) * 256 + (s.last() as nat)
    }
}

/// 256 to the power `n`: one more than the largest value `n` bytes can hold.
pub open spec fn pow256(n: nat) -> nat
    decreases n,
{
    if n == 0 {
        1
    } else {
        256 * pow256((n - 1) as nat)
    }
}

/// The big-endian encoding of `v` in exactly `n` bytes.
pub open spec fn be_bytes(v: nat, n: nat) -> Seq<u8>
    decreases n,
{
    if n == 0 {
        Seq::empty()
    } else {
        be_bytes(v / 256, (n - 1) as nat).push((v % 256) as u8)
    }
}

/// What one decoded record holds: the name's characters and the data bytes.
#[verifier::ext_equal]
pub struct RecordModel {
    pub name: Seq<char>,
    pub data: Seq<u8>,
}

/// Parse one record from the front of `s`: an 8-byte big-endian data length,
/// a 2-byte big-endian name length, the name bytes, one separator byte, then
/// the data bytes. On success returns the record and the bytes that follow it.
pub open spec fn parse_record(s: Seq<u8>) -> Result<(RecordModel, Seq<u8>), Error> {
    if s.len() < 11 {
        Err(Error::NotEnoughBytes)
    } else {
        let size = be_val(s.subrange(0, 8)) as int;
        let name_len = be_val(s.subrange(8, 10)) as int;
        if s.len() < 11 + name_len + size {
            Err(Error::NotEnoughBytes)
        } else {
            let name_bytes = s.subrange(10, 10 + name_len);
            if !valid_utf8(name_bytes) {
                Err(Error::StringDecodeError)
            } else {
                let rec = RecordModel {
                    name: decode_utf8(name_bytes),
                    data: s.subrange(11 + name_len, 11 + name_len + size),
                };
                Ok((rec, s.subrange(11 + name_len + size, s.len() as int)))
            }
        }
    }
}

/// Parse the 8-byte header of `s`: the magic number, then the big-endian
/// record count. On success returns the declared count and the body bytes.
pub open spec fn parse_header(s: Seq<u8>) -> Result<(nat, Seq<u8>), Error> {
    if s.len() < 8 {
        Err(Error::NotEnoughBytes)
    } else if be_val(s.subrange(0, 4)) != MAGIC {
        Err(Error::BadMagicNumber)
    } else {
        Ok((be_val(s.subrange(4, 8)), s.subrange(8, s.len() as int)))
    }
}

/// The whole sequence of results an iterator yields when it starts at cursor
/// `s` with `remaining` records left to attempt: one `Ok` per parsed record,
/// and at most one final error, after which nothing more is yielded.
pub open spec fn drain(s: Seq<u8>, remaining: nat) -> Seq<Result<RecordModel, Error>>
    decreases remaining,
{
    if remaining == 0 {
        Seq::empty()
    } else {
        match parse_record(s) {
            Err(e) => seq![Err(e)],
            Ok(p) => seq![Ok(p.0)] + drain(p.1, (remaining - 1) as nat),
        }
    }
}

/// A record can be laid out on the wire: its name's encoding fits the 2-byte
/// length field and its data fits the 8-byte length field.
pub open spec fn encodable(r: RecordModel) -> bool {
    encode_utf8(r.name).len() < 0x1_0000 && r.data.len() < 0x1_0000_0000_0000_0000
}

/// One record as laid out on the wire: the 8-byte data length, the 2-byte
/// name length, the UTF-8 name, one separator byte, then the data.
pub open spec fn record_bytes(r: RecordModel) -> Seq<u8> {
    let name = encode_utf8(r.name);
    be_bytes(r.data.len(), 8) + be_bytes(name.len(), 2) + name + seq![0u8] + r.data
}

/// A record list as laid out on the wire: the records back-to-back.
pub open spec fn wire_bytes(rs: Seq<RecordModel>) -> Seq<u8>
    decreases rs.len(),
{
    if rs.len() == 0 {
        Seq::empty()
    } else {
        record_bytes(rs.first()) + wire_bytes(rs.drop_first())
    }
}

/// A whole file: the magic number, the record count, then the records.
pub open spec fn file_bytes(rs: Seq<RecordModel>) -> Seq<u8> {
    be_bytes(MAGIC as nat, 4) + be_bytes(rs.len(), 4) + wire_bytes(rs)
}

/// A byte sequence of length `n` holds a value below `pow256(n)`.
pub proof fn lemma_be_val_bound(s: Seq<u8>)
    ensures
        be_val(s) < pow256(s.len()),
    decreases s.len(),
{
    if s.len() > 0 {
        let s0 = s.drop_last();
        lemma_be_val_bound(s0);
        assert(be_val(s0) * 256 + 255 < pow256(s0.len()) * 256) by (nonlinear_arith)
            requires
                be_val(s0) < pow256(s0.len()),
        ;
    }
}

/// Larger widths hold no smaller a range.
pub proof fn lemma_pow256_mono(m: nat, n: nat)
    requires
        m <= n,
    ensures
        pow256(m) <= pow256(n),
    decreases n,
{
    if m < n {
        lemma_pow256_mono(m, (n - 1) as nat);
    }
}

/// The powers of 256 that the fixed-width fields of the format use.
pub proof fn lemma_pow256_values()
    ensures
        pow256(2) == 0x1_0000,
        pow256(4) == 0x1_0000_0000,
        pow256(7) == 0x100_0000_0000_0000,
        pow256(8) == 0x1_0000_0000_0000_0000,
{
    assert(pow256(0) == 1);
    assert(pow256(1) == 256);
    assert(pow256(2) == 0x1_0000);
    assert(pow256(3) == 0x100_0000);
    assert(pow256(4) == 0x1_0000_0000);
    assert(pow256(5) == 0x100_0000_0000);
    assert(pow256(6) == 0x1_0000_0000_0000);
    assert(pow256(7) == 0x100_0000_0000_0000);
    assert(pow256(8) == 0x1_0000_0000_0000_0000);
}

/// The encoding of `v` in `n` bytes has exactly `n` bytes.
pub proof fn lemma_be_bytes_len(v: nat, n: nat)
    ensures
        be_bytes(v, n).len() == n,
    decreases n,
{
    if n > 0 {
        lemma_be_bytes_len(v / 256, (n - 1) as nat);
    }
}

/// Reading back the `n`-byte encoding of a value that fits yields the value.
pub proof fn lemma_be_val_be_bytes(v: nat, n: nat)
    requires
        v < pow256(n),
    ensures
        be_val(be_bytes(v, n)) == v,
    decreases n,
{
    if n > 0 {
        let q = v / 256;
        let m = (v % 256) as u8;
        assert(v / 256 < pow256((n - 1) as nat)) by (nonlinear_arith)
            requires
                v < 256 * pow256((n - 1) as nat),
        ;
        lemma_be_val_be_bytes(q, (n - 1) as nat);
        let e = be_bytes(q, (n - 1) as nat);
        assert(e.push(m).drop_last() =~= e);
        assert(e.push(m).last() == m);
        assert(be_val(e.push(m)) == q * 256 + (m as nat));
        assert(v == 256 * (v / 256) + v % 256) by (nonlinear_arith);
    }
}

/// `suffix` is the tail of `s` starting at some offset.
pub open spec fn is_suffix_of(suffix: Seq<u8>, s: Seq<u8>) -> bool {
    suffix.len() <= s.len() && suffix == s.subrange(s.len() - suffix.len(), s.len() as int)
}

} // verus!
