//! Cutting a sample buffer into transfer units.
//!
//! A buffer of `L` bytes and a transfer unit of `U` bytes give `ceil(L / U)`
//! chunks in the buffer's own byte order. Every chunk but the last is `U`
//! bytes long; the last holds what is left. Chunks never reach past the
//! buffer they were cut from.

use vstd::arithmetic::div_mod::lemma_fundamental_div_mod;
use vstd::arithmetic::div_mod::lemma_fundamental_div_mod_converse;
use vstd::prelude::*;
use vstd::slice::slice_subrange;

verus! {

/// Number of chunks that `len` bytes make at `unit` bytes a chunk: `len / unit`
/// rounded up.
pub open spec fn chunk_count(len: nat, unit: nat) -> nat {
    if unit == 0 {
        0
    } else {
        ((len + unit - 1) / (unit as int)) as nat
    }
}

/// Offset at which chunk `i` begins, capped at the end of the buffer.
pub open spec fn chunk_start(len: nat, unit: nat, i: nat) -> nat {
    if i * unit <= len {
        i * unit
    } else {
        len
    }
}

/// Chunk `i` of `buf`.
pub open spec fn chunk_at(buf: Seq<u8>, unit: nat, i: nat) -> Seq<u8> {
    buf.subrange(
        chunk_start(buf.len(), unit, i) as int,
        chunk_start(buf.len(), unit, i + 1) as int,
    )
}

/// All chunks of `buf`, first to last.
pub open spec fn chunks(buf: Seq<u8>, unit: nat) -> Seq<Seq<u8>> {
    Seq::new(chunk_count(buf.len(), unit), |i: int| chunk_at(buf, unit, i as nat))
}

/// `chunk_count` is the least number of units that cover `len` bytes.
pub proof fn lemma_chunk_count_is_ceiling(len: nat, unit: nat)
    requires
        unit > 0,
    ensures
        chunk_count(len, unit) * unit >= len,
        len > 0 ==> (chunk_count(len, unit) - 1) * unit < len,
        len == 0 <==> chunk_count(len, unit) == 0,
        chunk_count(len, unit) <= len,
{
    let x: int = len + unit - 1;
    let d: int = unit as int;
    let q: int = x / d;
    let r: int = x % d;
    lemma_fundamental_div_mod(x, d);
    assert(x == d * q + r);
    assert(0 <= r < d);
    assert(q >= 0 && q * d >= len && (len > 0 ==> (q - 1) * d < len) && (len == 0 ==> q == 0) && q
        <= len) by (nonlinear_arith)
        requires
            x == d * q + r,
            0 <= r < d,
            x == len + d - 1,
            len >= 0,
    ;
    assert(chunk_count(len, unit) == q);
}

/// Chunk `i` exists exactly when it begins inside the buffer.
pub proof fn lemma_chunk_exists(len: nat, unit: nat, i: nat)
    requires
        unit > 0,
    ensures
        i < chunk_count(len, unit) <==> i * unit < len,
{
    lemma_chunk_count_is_ceiling(len, unit);
    let c = chunk_count(len, unit) as int;
    let d: int = unit as int;
    let k: int = i as int;
    assert((k < c ==> k * d < len) && (k >= c ==> k * d >= len)) by (nonlinear_arith)
        requires
            c * d >= len,
            len > 0 ==> (c - 1) * d < len,
            len == 0 ==> c == 0,
            d > 0,
            k >= 0,
            c >= 0,
    ;
}

/// Where a chunk ends the next one begins, one unit further on or at the end
/// of the buffer.
pub proof fn lemma_chunk_step(len: nat, unit: nat, i: nat)
    ensures
        (i + 1) * unit == i * unit + unit,
        chunk_start(len, unit, i) <= chunk_start(len, unit, i + 1) <= len,
{
    assert((i + 1) * unit == i * unit + unit) by (nonlinear_arith);
}

/// Length of each chunk: a full unit for every chunk but the last, and for
/// the last whatever remains, which is between one byte and a full unit.
pub proof fn lemma_chunk_lengths(buf: Seq<u8>, unit: nat, i: nat)
    requires
        unit > 0,
        i < chunk_count(buf.len(), unit),
    ensures
        i + 1 < chunk_count(buf.len(), unit) ==> chunk_at(buf, unit, i).len() == unit,
        i + 1 == chunk_count(buf.len(), unit) ==> chunk_at(buf, unit, i).len() == buf.len() - i
            * unit,
        1 <= chunk_at(buf, unit, i).len() <= unit,
{
    lemma_chunk_exists(buf.len(), unit, i);
    lemma_chunk_exists(buf.len(), unit, i + 1);
    lemma_chunk_step(buf.len(), unit, i);
    lemma_chunk_count_is_ceiling(buf.len(), unit);
}

/// The last chunk is short exactly when the unit does not divide the
/// buffer's length, and then holds `len % unit` bytes.
pub proof fn lemma_last_chunk_remainder(buf: Seq<u8>, unit: nat)
    requires
        unit > 0,
        buf.len() > 0,
    ensures
        chunk_count(buf.len(), unit) > 0,
        buf.len() % unit != 0 ==> chunks(buf, unit).last().len() == buf.len() % unit,
        buf.len() % unit == 0 ==> chunks(buf, unit).last().len() == unit,
{
    let len = buf.len();
    let c = chunk_count(len, unit);
    lemma_chunk_count_is_ceiling(len, unit);
    let i = (c - 1) as nat;
    lemma_chunk_lengths(buf, unit, i);
    let last_len: int = len - i * unit;
    assert(chunks(buf, unit).last() == chunk_at(buf, unit, i));
    assert(chunk_at(buf, unit, i).len() == last_len);
    let l: int = len as int;
    let d: int = unit as int;
    let q: int = i as int;
    if last_len == unit {
        assert(l == (q + 1) * d + 0) by (nonlinear_arith)
            requires
                l - q * d == d,
        ;
        lemma_fundamental_div_mod_converse(l, d, q + 1, 0);
    } else {
        lemma_fundamental_div_mod_converse(l, d, q, last_len);
    }
}

/// The first `k` chunks, joined, are the bytes before chunk `k`.
pub proof fn lemma_chunks_prefix(buf: Seq<u8>, unit: nat, k: nat)
    requires
        unit > 0,
        k <= chunk_count(buf.len(), unit),
    ensures
        chunks(buf, unit).take(k as int).flatten() == buf.take(
            chunk_start(buf.len(), unit, k) as int,
        ),
    decreases k,
{
    let all = chunks(buf, unit);
    if k == 0 {
        assert(0 * unit == 0) by (nonlinear_arith);
        assert(all.take(0) =~= Seq::<Seq<u8>>::empty());
        assert(all.take(0).flatten() =~= buf.take(0));
    } else {
        let j = (k - 1) as nat;
        lemma_chunks_prefix(buf, unit, j);
        lemma_chunk_step(buf.len(), unit, j);
        assert(all.take(k as int) =~= all.take(j as int).push(all[j as int]));
        all.take(j as int).lemma_flatten_push(all[j as int]);
        assert(all[j as int] == chunk_at(buf, unit, j));
        assert(buf.take(chunk_start(buf.len(), unit, j) as int) + chunk_at(buf, unit, j)
            =~= buf.take(chunk_start(buf.len(), unit, k) as int));
    }
}

/// Chunk coverage: the chunks of a buffer, joined in order, are the buffer;
/// there are `ceil(len / unit)` of them; all but the last are one unit long,
/// and the last is not empty and not longer than a unit.
pub proof fn lemma_chunk_coverage(buf: Seq<u8>, unit: nat)
    requires
        unit > 0,
    ensures
        chunks(buf, unit).flatten() == buf,
        chunks(buf, unit).len() == chunk_count(buf.len(), unit),
        chunk_count(buf.len(), unit) * unit >= buf.len(),
        buf.len() > 0 ==> (chunk_count(buf.len(), unit) - 1) * unit < buf.len(),
        forall|i: int|
            0 <= i < chunks(buf, unit).len() - 1 ==> (#[trigger] chunks(buf, unit)[i]).len()
                == unit,
        chunks(buf, unit).len() > 0 ==> 1 <= chunks(buf, unit).last().len() <= unit,
{
    let all = chunks(buf, unit);
    let c = chunk_count(buf.len(), unit);
    lemma_chunk_count_is_ceiling(buf.len(), unit);
    lemma_chunks_prefix(buf, unit, c);
    assert(all.take(c as int) =~= all);
    assert(buf.take(buf.len() as int) =~= buf);
    assert forall|i: int| 0 <= i < all.len() - 1 implies (#[trigger] all[i]).len() == unit by {
        lemma_chunk_lengths(buf, unit, i as nat);
    }
    if c > 0 {
        lemma_chunk_lengths(buf, unit, (c - 1) as nat);
    }
}

/// A cursor over the chunks of one buffer. It hands them out one by one, in
/// order, and cannot be restarted.
pub struct Chunker<'a> {
    buf: &'a [u8],
    unit: usize,
    pos: usize,
    index: usize,
}

impl<'a> Chunker<'a> {
    #[verifier::type_invariant]
    spec fn well_formed(&self) -> bool {
        &&& self.unit > 0
        &&& self.index <= chunk_count(self.buf@.len(), self.unit as nat)
        &&& self.pos == chunk_start(self.buf@.len(), self.unit as nat, self.index as nat)
    }

    /// The bytes that are being cut.
    pub closed spec fn source(&self) -> Seq<u8> {
        self.buf@
    }

    /// The transfer unit.
    pub closed spec fn unit(&self) -> nat {
        self.unit as nat
    }

    /// Number of chunks handed out so far.
    pub closed spec fn emitted(&self) -> nat {
        self.index as nat
    }

    /// Starts cutting `buf` into chunks of `unit` bytes.
    pub fn new(buf: &'a [u8], unit: usize) -> (chunker: Self)
        requires
            unit > 0,
        ensures
            chunker.source() == buf@,
            chunker.unit() == unit,
            chunker.emitted() == 0,
    {
        assert(0 * (unit as nat) == 0) by (nonlinear_arith);
        Chunker { buf, unit, pos: 0, index: 0 }
    }

    /// Hands out the next chunk, or `None` once the whole buffer has been
    /// handed out.
    pub fn next_chunk(&mut self) -> (next: Option<&'a [u8]>)
        ensures
            final(self).source() == old(self).source(),
            final(self).unit() == old(self).unit(),
            match next {
                Some(chunk) => {
                    &&& old(self).emitted() < chunk_count(
                        old(self).source().len(),
                        old(self).unit(),
                    )
                    &&& chunk@ == chunks(old(self).source(), old(self).unit())[old(
                        self,
                    ).emitted() as int]
                    &&& final(self).emitted() == old(self).emitted() + 1
                },
                None => {
                    &&& old(self).emitted() == chunk_count(
                        old(self).source().len(),
                        old(self).unit(),
                    )
                    &&& final(self).emitted() == old(self).emitted()
                },
            },
    {
        proof {
            use_type_invariant(&*self);
            lemma_chunk_exists(self.buf@.len(), self.unit as nat, self.index as nat);
            lemma_chunk_step(self.buf@.len(), self.unit as nat, self.index as nat);
            lemma_chunk_count_is_ceiling(self.buf@.len(), self.unit as nat);
        }
        let buf = self.buf;
        let len = buf.len();
        if self.pos >= len {
            return None;
        }
        let start = self.pos;
        let end = if len - start > self.unit {
            start + self.unit
        } else {
            len
        };
        *self = Chunker { buf, unit: self.unit, pos: end, index: self.index + 1 };
        Some(slice_subrange(buf, start, end))
    }
}

} // verus!
