//! The laws of the format, proved against the model in `wire`: what the
//! header decoder rejects, and how a traversal relates to the wire layout.

use vstd::prelude::*;
use vstd::utf8::{encode_utf8, encode_utf8_decode_utf8, encode_utf8_valid_utf8};
use crate::error::Error;
use crate::wire::{
    be_bytes, be_val, drain, encodable, file_bytes, lemma_be_bytes_len, lemma_be_val_be_bytes,
    lemma_pow256_values, parse_header, parse_record, record_bytes, wire_bytes, RecordModel, MAGIC,
};

verus! {

/// Fewer than eight bytes never decode: there is no room for the header.
pub proof fn lemma_short_input_rejected(s: Seq<u8>)
    requires
        s.len() < 8,
    ensures
        parse_header(s) == Err::<(nat, Seq<u8>), Error>(Error::NotEnoughBytes),
{
}

/// A wrong magic number is rejected whenever the header can be read at all.
pub proof fn lemma_bad_magic_rejected(s: Seq<u8>)
    requires
        s.len() >= 8,
        be_val(s.subrange(0, 4)) != MAGIC,
    ensures
        parse_header(s) == Err::<(nat, Seq<u8>), Error>(Error::BadMagicNumber),
{
}

/// A declared count of zero yields no items, whatever bytes the body holds.
pub proof fn lemma_zero_count_yields_nothing(s: Seq<u8>)
    ensures
        drain(s, 0) == Seq::<Result<RecordModel, Error>>::empty(),
{
}

/// Parsing an encoded record off the front of a cursor succeeds, yields that
/// record, and leaves exactly the bytes that followed the encoding.
pub proof fn lemma_parse_record_bytes(r: RecordModel, rest: Seq<u8>)
    requires
        encodable(r),
    ensures
        parse_record(record_bytes(r) + rest) == Ok::<(RecordModel, Seq<u8>), Error>((r, rest)),
{
    let name = encode_utf8(r.name);
    let nl = name.len() as int;
    let dl = r.data.len() as int;
    lemma_be_bytes_len(r.data.len(), 8);
    lemma_be_bytes_len(name.len(), 2);
    lemma_pow256_values();
    lemma_be_val_be_bytes(r.data.len(), 8);
    lemma_be_val_be_bytes(name.len(), 2);
    encode_utf8_valid_utf8(r.name);
    encode_utf8_decode_utf8(r.name);
    let s = record_bytes(r) + rest;
    assert(s.len() == 11 + nl + dl + rest.len());
    assert(s.subrange(0, 8) =~= be_bytes(r.data.len(), 8));
    assert(s.subrange(8, 10) =~= be_bytes(name.len(), 2));
    assert(s.subrange(10, 10 + nl) =~= name);
    assert(s.subrange(11 + nl, 11 + nl + dl) =~= r.data);
    assert(s.subrange(11 + nl + dl, s.len() as int) =~= rest);
}

/// Draining a cursor that starts with `rs` encoded back-to-back parses each
/// of them in order, then goes on draining the remainder of the cursor with
/// the attempts that are left.
pub proof fn lemma_drain_encoded_prefix(rs: Seq<RecordModel>, tail: Seq<u8>, n: nat)
    requires
        forall|i: int| 0 <= i < rs.len() ==> encodable(#[trigger] rs[i]),
        rs.len() <= n,
    ensures
        drain(wire_bytes(rs) + tail, n) == Seq::new(
            rs.len(),
            |i: int| Ok::<RecordModel, Error>(rs[i]),
        ) + drain(tail, (n - rs.len()) as nat),
    decreases rs.len(),
{
    let oks = Seq::new(rs.len(), |i: int| Ok::<RecordModel, Error>(rs[i]));
    if rs.len() == 0 {
        assert(wire_bytes(rs) + tail =~= tail);
        assert(oks + drain(tail, n) =~= drain(tail, n));
    } else {
        let r0 = rs.first();
        let rest_rs = rs.drop_first();
        let cursor_rest = wire_bytes(rest_rs) + tail;
        lemma_parse_record_bytes(r0, cursor_rest);
        assert(wire_bytes(rs) + tail =~= record_bytes(r0) + cursor_rest);
        lemma_drain_encoded_prefix(rest_rs, tail, (n - 1) as nat);
        let oks_rest = Seq::new(rest_rs.len(), |i: int| Ok::<RecordModel, Error>(rest_rs[i]));
        assert(drain(wire_bytes(rs) + tail, n)
            == seq![Ok::<RecordModel, Error>(r0)] + (oks_rest + drain(
            tail,
            (n - rs.len()) as nat,
        )));
        assert(seq![Ok::<RecordModel, Error>(r0)] + (oks_rest + drain(tail, (n - rs.len()) as nat))
            =~= oks + drain(tail, (n - rs.len()) as nat));
    }
}

/// Round trip: a file that encodes a record list decodes to a header whose
/// count and body match, and draining the body yields exactly those records,
/// each as a success, in order.
pub proof fn lemma_round_trip(rs: Seq<RecordModel>)
    requires
        forall|i: int| 0 <= i < rs.len() ==> encodable(#[trigger] rs[i]),
        rs.len() < 0x1_0000_0000,
    ensures
        parse_header(file_bytes(rs)) == Ok::<(nat, Seq<u8>), Error>((rs.len(), wire_bytes(rs))),
        drain(wire_bytes(rs), rs.len()) == Seq::new(
            rs.len(),
            |i: int| Ok::<RecordModel, Error>(rs[i]),
        ),
{
    lemma_be_bytes_len(MAGIC as nat, 4);
    lemma_be_bytes_len(rs.len(), 4);
    lemma_pow256_values();
    lemma_be_val_be_bytes(MAGIC as nat, 4);
    lemma_be_val_be_bytes(rs.len(), 4);
    let f = file_bytes(rs);
    assert(f.subrange(0, 4) =~= be_bytes(MAGIC as nat, 4));
    assert(f.subrange(4, 8) =~= be_bytes(rs.len(), 4));
    assert(f.subrange(8, f.len() as int) =~= wire_bytes(rs));
    lemma_drain_encoded_prefix(rs, Seq::empty(), rs.len());
    assert(wire_bytes(rs) + Seq::<u8>::empty() =~= wire_bytes(rs));
    let oks = Seq::new(rs.len(), |i: int| Ok::<RecordModel, Error>(rs[i]));
    assert(oks + drain(Seq::empty(), 0) =~= oks);
}

/// Early termination: when the body holds `rs` well-formed records and then
/// runs out of bytes, a count that promises more yields exactly the parsed
/// records followed by one `NotEnoughBytes` error, and nothing after it.
pub proof fn lemma_early_termination(rs: Seq<RecordModel>, tail: Seq<u8>, n: nat)
    requires
        forall|i: int| 0 <= i < rs.len() ==> encodable(#[trigger] rs[i]),
        rs.len() < n,
        parse_record(tail) == Err::<(RecordModel, Seq<u8>), Error>(Error::NotEnoughBytes),
    ensures
        drain(wire_bytes(rs) + tail, n) == Seq::new(
            rs.len(),
            |i: int| Ok::<RecordModel, Error>(rs[i]),
        ).push(Err(Error::NotEnoughBytes)),
{
    lemma_drain_encoded_prefix(rs, tail, n);
    let oks = Seq::new(rs.len(), |i: int| Ok::<RecordModel, Error>(rs[i]));
    assert(drain(tail, (n - rs.len()) as nat) =~= seq![
        Err::<RecordModel, Error>(Error::NotEnoughBytes),
    ]);
    assert(oks + seq![Err::<RecordModel, Error>(Error::NotEnoughBytes)] =~= oks.push(
        Err(Error::NotEnoughBytes),
    ));
}

} // verus!
