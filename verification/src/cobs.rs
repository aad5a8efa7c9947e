//! Consistent-overhead byte stuffing: an encoding of arbitrary bytes in
//! which the byte zero never occurs, so that zero can delimit frames.
//!
//! An encoded body is a chain of blocks. Each block starts with a code byte
//! `c` from 1 to 255 and carries the `c - 1` non-zero data bytes that follow
//! it. A block with `c < 255` stands for its data followed by a zero, unless
//! it is the last block; a block with `c == 255` stands for its 254 data
//! bytes alone.

use vstd::prelude::*;

verus! {

/// Most data bytes that one block carries.
pub const MAX_RUN: usize = 254;

/// Continues counting the non-zero bytes of `data` from index `i + n`,
/// having counted `n`, and stops at a zero, at the end, or at 254.
pub open spec fn run_scan(data: Seq<u8>, i: int, n: int) -> int
    decreases 254 - n,
{
    if n >= 254 || i + n >= data.len() || data[i + n] == 0 {
        n
    } else {
        run_scan(data, i, n + 1)
    }
}

/// Number of consecutive non-zero bytes of `data` from index `i` on, up to
/// 254.
pub open spec fn run_from(data: Seq<u8>, i: int) -> int {
    run_scan(data, i, 0)
}

/// The encoding of `data` from index `i` on.
pub open spec fn encoded_from(data: Seq<u8>, i: int) -> Seq<u8>
    decreases data.len() - i,
{
    if i < 0 || i > data.len() {
        Seq::empty()
    } else {
        let r = run_from(data, i);
        let block = seq![(r + 1) as u8] + data.subrange(i, i + r);
        if r < 0 || i + r > data.len() {
            Seq::empty()
        } else if i + r == data.len() {
            block
        } else if r == 254 {
            block + encoded_from(data, i + 254)
        } else {
            block + encoded_from(data, i + r + 1)
        }
    }
}

/// The encoding of `data`: free of zero bytes, and at least one byte long.
pub open spec fn cobs_encoded(data: Seq<u8>) -> Seq<u8> {
    encoded_from(data, 0)
}

/// `head`, followed by `tail` if there is one.
pub open spec fn joined(head: Seq<u8>, tail: Option<Seq<u8>>) -> Option<Seq<u8>> {
    match tail {
        Some(t) => Some(head + t),
        None => None,
    }
}

/// The data that a non-empty chain of blocks stands for, or `None` if the
/// chain is malformed: a zero code byte, a zero inside a block, or a block
/// that runs past the end.
pub open spec fn blocks_decoded(enc: Seq<u8>) -> Option<Seq<u8>>
    decreases enc.len(),
{
    if enc.len() == 0 {
        None
    } else {
        let c = enc[0] as int;
        if c == 0 || c > enc.len() {
            None
        } else if enc.subrange(1, c).contains(0u8) {
            None
        } else if c == enc.len() {
            Some(enc.subrange(1, c))
        } else if c == 255 {
            joined(enc.subrange(1, c), blocks_decoded(enc.skip(c)))
        } else {
            joined(enc.subrange(1, c).push(0u8), blocks_decoded(enc.skip(c)))
        }
    }
}

/// The data that an encoded body stands for, or `None` if it is malformed.
/// An empty body stands for no data.
pub open spec fn cobs_decoded(enc: Seq<u8>) -> Option<Seq<u8>> {
    if enc.len() == 0 {
        Some(Seq::empty())
    } else {
        blocks_decoded(enc)
    }
}

/// Largest length that the encoding of `len` bytes can have.
pub open spec fn max_encoded_len(len: int) -> int {
    len + len / 254 + 1
}

/// What the scan of a run finds: a count of non-zero bytes that stops at a
/// zero, at the end of the data, or at 254.
pub proof fn lemma_run_scan(data: Seq<u8>, i: int, n: int)
    requires
        0 <= i,
        0 <= n <= 254,
        i + n <= data.len(),
    ensures
        n <= run_scan(data, i, n) <= 254,
        i + run_scan(data, i, n) <= data.len(),
        forall|j: int| i + n <= j < i + run_scan(data, i, n) ==> data[j] != 0,
        run_scan(data, i, n) == 254 || i + run_scan(data, i, n) == data.len() || data[i
            + run_scan(data, i, n)] == 0,
    decreases 254 - n,
{
    if !(n >= 254 || i + n >= data.len() || data[i + n] == 0) {
        lemma_run_scan(data, i, n + 1);
    }
}

/// The encoding is never empty.
pub proof fn lemma_encoded_nonempty(data: Seq<u8>, i: int)
    requires
        0 <= i <= data.len(),
    ensures
        encoded_from(data, i).len() >= 1,
{
    lemma_run_scan(data, i, 0);
}

/// No byte of the encoding is zero.
pub proof fn lemma_encoded_from_has_no_zero(data: Seq<u8>, i: int)
    requires
        0 <= i <= data.len(),
    ensures
        !encoded_from(data, i).contains(0u8),
    decreases data.len() - i,
{
    lemma_run_scan(data, i, 0);
    let r = run_from(data, i);
    let block = seq![(r + 1) as u8] + data.subrange(i, i + r);
    assert forall|k: int| 0 <= k < block.len() implies block[k] != 0 by {
        if k > 0 {
            assert(block[k] == data[i + (k - 1)]);
        }
    }
    if i + r == data.len() {
    } else if r == 254 {
        lemma_encoded_from_has_no_zero(data, i + 254);
    } else {
        lemma_encoded_from_has_no_zero(data, i + r + 1);
    }
}

/// The encoding of any data is free of zero bytes.
pub proof fn lemma_encoded_has_no_zero(data: Seq<u8>)
    ensures
        !cobs_encoded(data).contains(0u8),
        cobs_encoded(data).len() >= 1,
{
    lemma_encoded_from_has_no_zero(data, 0);
    lemma_encoded_nonempty(data, 0);
}

/// The encoding adds at most one byte per 254 bytes of data, plus one.
pub proof fn lemma_encoded_from_len(data: Seq<u8>, i: int)
    requires
        0 <= i <= data.len(),
    ensures
        encoded_from(data, i).len() <= max_encoded_len(data.len() - i),
    decreases data.len() - i,
{
    lemma_run_scan(data, i, 0);
    let r = run_from(data, i);
    if i + r == data.len() {
    } else if r == 254 {
        lemma_encoded_from_len(data, i + 254);
    } else {
        lemma_encoded_from_len(data, i + r + 1);
    }
}

/// The encoding of `data` is at most `max_encoded_len(data.len())` long.
pub proof fn lemma_encoded_len(data: Seq<u8>)
    ensures
        1 <= cobs_encoded(data).len() <= max_encoded_len(data.len() as int),
{
    lemma_encoded_from_len(data, 0);
    lemma_encoded_nonempty(data, 0);
}

/// Decoding the encoding of the data from index `i` on gives that data back.
pub proof fn lemma_decode_encoded_from(data: Seq<u8>, i: int)
    requires
        0 <= i <= data.len(),
    ensures
        blocks_decoded(encoded_from(data, i)) == Some(data.skip(i)),
    decreases data.len() - i,
{
    lemma_run_scan(data, i, 0);
    let r = run_from(data, i);
    let run = data.subrange(i, i + r);
    let block = seq![(r + 1) as u8] + run;
    let enc = encoded_from(data, i);
    let c = r + 1;
    assert(block.len() == c);
    assert(block[0] == c);
    assert(block.subrange(1, c) =~= run);
    assert forall|k: int| 0 <= k < run.len() implies run[k] != 0 by {
        assert(run[k] == data[i + k]);
    }
    if i + r == data.len() {
        assert(enc == block);
        assert(run =~= data.skip(i));
    } else {
        let next = if r == 254 {
            i + 254
        } else {
            i + r + 1
        };
        let rest = encoded_from(data, next);
        assert(enc == block + rest);
        lemma_encoded_nonempty(data, next);
        lemma_decode_encoded_from(data, next);
        assert(enc[0] == c);
        assert(enc.subrange(1, c) =~= run);
        assert(enc.skip(c) =~= rest);
        if r == 254 {
            assert(run + data.skip(next) =~= data.skip(i));
        } else {
            assert(run.push(0u8) + data.skip(next) =~= data.skip(i));
        }
    }
}

/// Decoding inverts encoding: whatever the data, the encoded body decodes to
/// exactly that data.
pub proof fn lemma_decode_inverts_encode(data: Seq<u8>)
    ensures
        cobs_decoded(cobs_encoded(data)) == Some(data),
{
    lemma_encoded_nonempty(data, 0);
    lemma_decode_encoded_from(data, 0);
    assert(data.skip(0) =~= data);
}

/// Encodes `data` so that no byte of the result is zero.
pub fn cobs_encode(data: &[u8]) -> (enc: Vec<u8>)
    ensures
        enc@ == cobs_encoded(data@),
        !enc@.contains(0u8),
        1 <= enc@.len() <= max_encoded_len(data@.len() as int),
{
    let len: usize = data.len();
    let mut enc: Vec<u8> = Vec::new();
    let mut i: usize = 0;
    loop
        invariant_except_break
            i <= len,
            len == data@.len(),
            enc@ + encoded_from(data@, i as int) == cobs_encoded(data@),
        ensures
            enc@ == cobs_encoded(data@),
        decreases len - i,
    {
        let mut r: usize = 0;
        while r < MAX_RUN && r < len - i && data[i + r] != 0
            invariant
                i <= len,
                len == data@.len(),
                r <= 254,
                i + r <= len,
                run_scan(data@, i as int, r as int) == run_from(data@, i as int),
            decreases 254 - r,
        {
            r = r + 1;
        }
        proof {
            lemma_run_scan(data@, i as int, 0);
        }
        let ghost before = enc@;
        enc.push((r + 1) as u8);
        let mut k: usize = 0;
        while k < r
            invariant
                k <= r,
                i + r <= len,
                len == data@.len(),
                enc@ == before.push((r + 1) as u8) + data@.subrange(i as int, i + k),
            decreases r - k,
        {
            enc.push(data[i + k]);
            k = k + 1;
            assert(data@.subrange(i as int, i + k) =~= data@.subrange(i as int, i + k - 1).push(
                data@[i + k - 1],
            ));
            assert(enc@ =~= before.push((r + 1) as u8) + data@.subrange(i as int, i + k));
        }
        let ghost block = seq![(r + 1) as u8] + data@.subrange(i as int, i + r);
        assert(enc@ =~= before + block);
        if i + r == len {
            assert(encoded_from(data@, i as int) == block);
            break ;
        } else if r == MAX_RUN {
            assert(encoded_from(data@, i as int) == block + encoded_from(data@, i + 254));
            assert(enc@ + encoded_from(data@, i + 254) =~= before + (block + encoded_from(
                data@,
                i + 254,
            )));
            i = i + MAX_RUN;
        } else {
            assert(encoded_from(data@, i as int) == block + encoded_from(data@, i + r + 1));
            assert(enc@ + encoded_from(data@, i + r + 1) =~= before + (block + encoded_from(
                data@,
                i + r + 1,
            )));
            i = i + r + 1;
        }
    }
    proof {
        lemma_encoded_has_no_zero(data@);
        lemma_encoded_len(data@);
    }
    enc
}

/// Decodes an encoded body, or reports that it is malformed.
pub fn cobs_decode(enc: &[u8]) -> (data: Option<Vec<u8>>)
    ensures
        data is Some <==> cobs_decoded(enc@) is Some,
        data is Some ==> data->0@ == cobs_decoded(enc@)->0,
{
    let len: usize = enc.len();
    let mut out: Vec<u8> = Vec::new();
    if len == 0 {
        assert(out@ =~= Seq::<u8>::empty());
        return Some(out);
    }
    let mut p: usize = 0;
    assert(enc@.skip(0) =~= enc@);
    loop
        invariant
            p < len,
            len == enc@.len(),
            cobs_decoded(enc@) == joined(out@, blocks_decoded(enc@.skip(p as int))),
        decreases len - p,
    {
        let ghost rest = enc@.skip(p as int);
        let ghost so_far = out@;
        let c: usize = enc[p] as usize;
        assert(rest[0] == enc@[p as int]);
        if c == 0 || c > len - p {
            return None;
        }
        let mut k: usize = 1;
        while k < c
            invariant
                1 <= k <= c,
                p + c <= len,
                len == enc@.len(),
                rest == enc@.skip(p as int),
                rest[0] == c,
                cobs_decoded(enc@) == joined(so_far, blocks_decoded(rest)),
                out@ == so_far + rest.subrange(1, k as int),
                !rest.subrange(1, k as int).contains(0u8),
            decreases c - k,
        {
            let b: u8 = enc[p + k];
            assert(rest[k as int] == b);
            if b == 0 {
                assert(rest.subrange(1, c as int)[k - 1] == 0);
                assert(rest.subrange(1, c as int).contains(0u8));
                assert(blocks_decoded(rest) is None);
                return None;
            }
            out.push(b);
            k = k + 1;
            assert(rest.subrange(1, k as int) =~= rest.subrange(1, k - 1).push(b));
            assert(out@ =~= so_far + rest.subrange(1, k as int));
        }
        if p + c == len {
            return Some(out);
        }
        if c != 255 {
            out.push(0);
            assert(out@ =~= so_far + rest.subrange(1, c as int).push(0u8));
        }
        assert(rest.skip(c as int) =~= enc@.skip(p + c));
        p = p + c;
    }
}

} // verus!
