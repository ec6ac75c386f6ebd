//! The SIRD decoder: header validation and the lazy record iterator.

use vstd::prelude::*;
use vstd::slice::slice_subrange;
use vstd::string::StringSliceAdditionalSpecFns;
use vstd::utf8::valid_utf8;
use crate::error::Error;
use crate::wire::{
    be_val, drain, is_suffix_of, lemma_be_val_bound, lemma_pow256_mono, lemma_pow256_values,
    parse_header, parse_record, RecordModel, MAGIC,
};

verus! {

/// A SIRD container, based from a byte slice: the declared record count and
/// the body bytes that follow the 8-byte header.
pub struct SIRD<'a> {
    pub count: u32,
    pub data: &'a [u8],
}

/// A single record of a SIRD file. Both fields are views into the bytes the
/// container was made from; the record owns nothing.
pub struct Record<'a> {
    pub name: &'a str,
    pub data: &'a [u8],
}

/// Walks a container's body record by record: `data` is the unparsed tail of
/// the body, `remaining` the number of records still to attempt.
pub struct RecordIterator<'a> {
    pub data: &'a [u8],
    pub remaining: usize,
}

impl<'a> View for Record<'a> {
    type V = RecordModel;

    open spec fn view(&self) -> RecordModel {
        RecordModel { name: self.name@, data: self.data@ }
    }
}

/// The result of one pull, with the record replaced by its model.
pub open spec fn result_model<'a>(r: Result<Record<'a>, Error>) -> Result<RecordModel, Error> {
    match r {
        Ok(rec) => Ok(rec@),
        Err(e) => Err(e),
    }
}

/// Read the `n` bytes at `off` as a big-endian unsigned integer.
fn read_be(bs: &[u8], off: usize, n: usize) -> (r: u64)
    requires
        off + n <= bs@.len(),
        n <= 8,
    ensures
        r == be_val(bs@.subrange(off as int, off as int + n as int)),
{
    let len = bs.len();
    let mut r: u64 = 0;
    let mut i: usize = 0;
    while i < n
        invariant
            off + n <= len,
            len == bs@.len(),
            n <= 8,
            i <= n,
            r == be_val(bs@.subrange(off as int, off as int + i as int)),
        decreases n - i,
    {
        let b = bs[off + i];
        proof {
            let taken = bs@.subrange(off as int, off as int + i as int);
            let extended = bs@.subrange(off as int, off as int + i as int + 1);
            assert(extended.drop_last() =~= taken);
            assert(extended.last() == b);
            lemma_be_val_bound(taken);
            lemma_pow256_mono(taken.len(), 7);
            lemma_pow256_values();
        }
        r = r * 256 + (b as u64);
        i = i + 1;
    }
    r
}

/// Relies on std::str::from_utf8: it returns `Ok` exactly when the bytes are
/// a valid UTF-8 encoding, and the returned string views those same bytes.
#[verifier::external_body]
fn bytes_to_str<'a>(bs: &'a [u8]) -> (r: Option<&'a str>)
    ensures
        match r {
            Some(t) => valid_utf8(bs@) && t.spec_bytes() == bs@,
            None => !valid_utf8(bs@),
        },
{
    std::str::from_utf8(bs).ok()
}

impl<'a> SIRD<'a> {
    /// Create a SIRD container from a byte slice. Fails if the magic number
    /// is invalid, or if there are not enough bytes to read the header.
    pub fn from_bytes(bs: &'a [u8]) -> (r: Result<Self, Error>)
        ensures
            match r {
                Ok(s) => parse_header(bs@) == Ok::<(nat, Seq<u8>), Error>((s.count as nat, s.data@)),
                Err(e) => parse_header(bs@) == Err::<(nat, Seq<u8>), Error>(e),
            },
    {
        let len = bs.len();
        if len < 8 {
            return Err(Error::NotEnoughBytes);
        }
        let magic = read_be(bs, 0, 4);
        if magic != MAGIC as u64 {
            return Err(Error::BadMagicNumber);
        }
        let count64 = read_be(bs, 4, 4);
        proof {
            lemma_be_val_bound(bs@.subrange(4, 8));
            lemma_pow256_values();
        }
        let count = count64 as u32;
        let data = slice_subrange(bs, 8, len);
        Ok(SIRD { count, data })
    }

    /// Returns the number of records that are supposedly in this SIRD.
    pub fn len(&self) -> (r: usize)
        ensures
            r == self.count as nat,
    {
        self.count as usize
    }

    /// Returns a fresh iterator over the records in this SIRD. Its cursor is
    /// the whole body and its remaining count the declared count, so every
    /// iterator over the same container yields the same sequence of results.
    pub fn iter(&self) -> (r: RecordIterator<'a>)
        ensures
            r.data@ == self.data@,
            r.remaining == self.count as nat,
    {
        RecordIterator { data: self.data, remaining: self.count as usize }
    }
}

impl<'a> RecordIterator<'a> {
    /// Try to read one record from the front of the cursor. On success the
    /// cursor advances past it; on failure the state is left unchanged.
    fn try_next(&mut self) -> (r: Result<Record<'a>, Error>)
        ensures
            final(self).remaining == old(self).remaining,
            match r {
                Ok(rec) => parse_record(old(self).data@)
                    == Ok::<(RecordModel, Seq<u8>), Error>((rec@, final(self).data@)),
                Err(e) => parse_record(old(self).data@)
                    == Err::<(RecordModel, Seq<u8>), Error>(e)
                    && final(self).data@ == old(self).data@,
            },
    {
        let len = self.data.len();
        if len < 11 {
            return Err(Error::NotEnoughBytes);
        }
        let size64 = read_be(self.data, 0, 8);
        let name_len64 = read_be(self.data, 8, 2);
        proof {
            lemma_be_val_bound(self.data@.subrange(8, 10));
            lemma_pow256_values();
        }
        let name_len = name_len64 as usize;
        if len - 11 < name_len {
            return Err(Error::NotEnoughBytes);
        }
        if ((len - 11 - name_len) as u64) < size64 {
            return Err(Error::NotEnoughBytes);
        }
        let size = size64 as usize;
        let name_bs = slice_subrange(self.data, 10, 10 + name_len);
        match bytes_to_str(name_bs) {
            None => Err(Error::StringDecodeError),
            Some(name) => {
                proof {
                    vstd::utf8::encode_utf8_decode_utf8(name@);
                }
                let data = slice_subrange(self.data, 11 + name_len, 11 + name_len + size);
                let rest = slice_subrange(self.data, 11 + name_len + size, len);
                self.data = rest;
                Ok(Record { name, data })
            },
        }
    }

    /// Pull the next result. Yields nothing once `remaining` is zero; a
    /// successful pull consumes one record, and an error forces `remaining`
    /// to zero, so nothing follows it. What a full traversal from the old
    /// state yields is this result followed by what the new state yields.
    pub fn next(&mut self) -> (r: Option<Result<Record<'a>, Error>>)
        ensures
            (r is None <==> old(self).remaining == 0),
            r is None ==> *final(self) == *old(self),
            match r {
                None => true,
                Some(item) => {
                    &&& drain(old(self).data@, old(self).remaining as nat)
                        == seq![result_model(item)]
                            + drain(final(self).data@, final(self).remaining as nat)
                    &&& match item {
                        Ok(rec) => final(self).remaining + 1 == old(self).remaining
                            && parse_record(old(self).data@)
                            == Ok::<(RecordModel, Seq<u8>), Error>((rec@, final(self).data@)),
                        Err(e) => final(self).remaining == 0
                            && final(self).data@ == old(self).data@
                            && parse_record(old(self).data@)
                            == Err::<(RecordModel, Seq<u8>), Error>(e),
                    }
                    &&& is_suffix_of(final(self).data@, old(self).data@)
                },
            },
    {
        if self.remaining == 0 {
            None
        } else {
            let ghost pre = *self;
            match self.try_next() {
                Ok(rec) => {
                    self.remaining = self.remaining - 1;
                    proof {
                        assert(drain(pre.data@, pre.remaining as nat)
                            == seq![Ok::<RecordModel, Error>(rec@)]
                                + drain(self.data@, self.remaining as nat));
                        assert(is_suffix_of(self.data@, pre.data@)) by {
                            let whole = pre.data@;
                            let suffix = self.data@;
                            assert(suffix
                                =~= whole.subrange(whole.len() - suffix.len(), whole.len() as int));
                        }
                    }
                    Some(Ok(rec))
                },
                Err(e) => {
                    self.remaining = 0;
                    proof {
                        assert(drain(pre.data@, pre.remaining as nat)
                            =~= seq![Err::<RecordModel, Error>(e)]
                                + drain(self.data@, self.remaining as nat));
                        assert(self.data@
                            =~= pre.data@.subrange(0, pre.data@.len() as int));
                    }
                    Some(Err(e))
                },
            }
        }
    }
}

/// Two iterators over the same container yield the same sequence of results:
/// a traversal is fixed by the container's body and declared count alone.
pub proof fn lemma_iter_idempotent<'a, 'b, 'c>(
    c: SIRD<'a>,
    i1: RecordIterator<'b>,
    i2: RecordIterator<'c>,
)
    requires
        i1.data@ == c.data@,
        i1.remaining == c.count as nat,
        i2.data@ == c.data@,
        i2.remaining == c.count as nat,
    ensures
        drain(i1.data@, i1.remaining as nat) == drain(i2.data@, i2.remaining as nat),
{
}

} // verus!
