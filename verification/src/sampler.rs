//! The window sampler: extracts strided sub-windows from a byte buffer.
//!
//! Starting at `file_offset`, the sampler visits every `skip_num`-th index of
//! the buffer. At each visited index it retains the bytes that lie between
//! `pick_offset` and `pick_offset + pick_length` past the index, clamped to
//! the end of the buffer, and concatenates the retained slices in index
//! order.

use vstd::prelude::*;

verus! {

pub open spec fn min_nat(a: nat, b: nat) -> nat {
    if a <= b {
        a
    } else {
        b
    }
}

/// The retained slice of the window that begins at `index`: the bytes from
/// `index + min(pick_offset, rem)` up to `index + min(pick_offset +
/// pick_length, rem)`, where `rem` is what is left of the buffer at `index`.
/// Empty whenever `pick_offset >= rem`.
pub open spec fn window_at(buf: Seq<u8>, pick_offset: nat, pick_length: nat, index: nat) -> Seq<u8>
    recommends
        index < buf.len(),
{
    let rem = (buf.len() - index) as nat;
    buf.subrange(
        index + min_nat(pick_offset, rem) as int,
        index + min_nat(pick_offset + pick_length, rem) as int,
    )
}

/// The concatenation of the retained slices of all windows that begin at
/// `index`, `index + skip`, `index + 2 * skip`, ... while the start of the
/// window lies inside the buffer.
pub open spec fn sample_spec(
    buf: Seq<u8>,
    skip: nat,
    pick_offset: nat,
    pick_length: nat,
    index: nat,
) -> Seq<u8>
    recommends
        skip > 0,
    decreases buf.len() - index,
{
    if skip == 0 || index >= buf.len() {
        Seq::empty()
    } else {
        let next = if index + skip <= buf.len() {
            index + skip
        } else {
            buf.len()
        };
        window_at(buf, pick_offset, pick_length, index) + sample_spec(
            buf,
            skip,
            pick_offset,
            pick_length,
            next,
        )
    }
}

/// Length of the retained slice of the window that begins at `index`:
/// `min(pick_offset + pick_length, rem) - min(pick_offset, rem)`, where
/// `rem` is what is left of the buffer at `index`.
pub open spec fn window_len_at(buf_len: nat, pick_offset: nat, pick_length: nat, index: nat) -> nat
    recommends
        index < buf_len,
{
    let rem = (buf_len - index) as nat;
    (min_nat(pick_offset + pick_length, rem) - min_nat(pick_offset, rem)) as nat
}

/// The sum, over every visited window start, of the length of its retained
/// slice.
pub open spec fn sample_len_spec(
    buf_len: nat,
    skip: nat,
    pick_offset: nat,
    pick_length: nat,
    index: nat,
) -> nat
    recommends
        skip > 0,
    decreases buf_len - index,
{
    if skip == 0 || index >= buf_len {
        0
    } else {
        let next = if index + skip <= buf_len {
            index + skip
        } else {
            buf_len
        };
        window_len_at(buf_len, pick_offset, pick_length, index) + sample_len_spec(
            buf_len,
            skip,
            pick_offset,
            pick_length,
            next,
        )
    }
}

/// The sampler's output length equals the sum over each visited window start
/// of the length of the slice retained there, and that sum is determined by
/// the parameters and the buffer length alone.
pub proof fn lemma_sample_len(
    buf: Seq<u8>,
    skip: nat,
    pick_offset: nat,
    pick_length: nat,
    index: nat,
)
    ensures
        sample_spec(buf, skip, pick_offset, pick_length, index).len() == sample_len_spec(
            buf.len(),
            skip,
            pick_offset,
            pick_length,
            index,
        ),
    decreases buf.len() - index,
{
    if skip == 0 || index >= buf.len() {
    } else {
        let next = if index + skip <= buf.len() {
            index + skip
        } else {
            buf.len()
        };
        lemma_sample_len(buf, skip, pick_offset, pick_length, next);
    }
}

/// Sampling is deterministic: any two results obtained from identical inputs
/// are byte-identical.
pub proof fn lemma_sample_deterministic(
    r1: Seq<u8>,
    r2: Seq<u8>,
    buf: Seq<u8>,
    skip: nat,
    pick_offset: nat,
    pick_length: nat,
    file_offset: nat,
)
    requires
        r1 == sample_spec(buf, skip, pick_offset, pick_length, file_offset),
        r2 == sample_spec(buf, skip, pick_offset, pick_length, file_offset),
    ensures
        r1 == r2,
{
}

/// A start offset at or past the end of the buffer yields an empty output.
pub proof fn lemma_sample_offset_past_end(
    buf: Seq<u8>,
    skip: nat,
    pick_offset: nat,
    pick_length: nat,
    file_offset: nat,
)
    requires
        file_offset >= buf.len(),
    ensures
        sample_spec(buf, skip, pick_offset, pick_length, file_offset) == Seq::<u8>::empty(),
{
}

/// A pick offset that reaches past what is left of the buffer yields an empty
/// retained slice for that window, not an error.
pub proof fn lemma_window_empty_when_offset_past_rem(
    buf: Seq<u8>,
    pick_offset: nat,
    pick_length: nat,
    index: nat,
)
    requires
        index < buf.len(),
        pick_offset >= buf.len() - index,
    ensures
        window_at(buf, pick_offset, pick_length, index) == Seq::<u8>::empty(),
{
    let rem = (buf.len() - index) as nat;
    assert(min_nat(pick_offset, rem) == rem);
    assert(min_nat(pick_offset + pick_length, rem) == rem);
    assert(buf.subrange(index + rem as int, index + rem as int) =~= Seq::<u8>::empty());
}

/// Extracts the strided windows of `buf` and returns their concatenation.
///
/// Pure and total: the result depends only on the arguments, every byte read
/// lies inside the buffer, and the loop terminates because each stride moves
/// the window start forward by at least one.
pub fn skiped_and_picked_file_buf(
    skip_num: usize,
    pick_offset: usize,
    pick_length: usize,
    file_offset: usize,
    buf: &Vec<u8>,
) -> (result: Vec<u8>)
    requires
        skip_num > 0,
        pick_length > 0,
    ensures
        result@ == sample_spec(
            buf@,
            skip_num as nat,
            pick_offset as nat,
            pick_length as nat,
            file_offset as nat,
        ),
{
    let mut result: Vec<u8> = Vec::new();
    let mut index: usize = file_offset;
    while index < buf.len()
        invariant
            skip_num > 0,
            sample_spec(
                buf@,
                skip_num as nat,
                pick_offset as nat,
                pick_length as nat,
                file_offset as nat,
            ) == result@ + sample_spec(
                buf@,
                skip_num as nat,
                pick_offset as nat,
                pick_length as nat,
                index as nat,
            ),
        decreases buf.len() - index,
    {
        let ghost prev = result@;
        let rem = buf.len() - index;
        let start_off = if pick_offset < rem {
            pick_offset
        } else {
            rem
        };
        let end_off = if pick_offset >= rem {
            rem
        } else if pick_length >= rem - pick_offset {
            rem
        } else {
            pick_offset + pick_length
        };
        assert(start_off as nat == min_nat(pick_offset as nat, rem as nat));
        assert(end_off as nat == min_nat(pick_offset as nat + pick_length as nat, rem as nat));
        let start_index = index + start_off;
        let end_index = index + end_off;
        let mut k = start_index;
        while k < end_index
            invariant
                start_index <= k <= end_index,
                end_index <= buf.len(),
                result@ == prev + buf@.subrange(start_index as int, k as int),
            decreases end_index - k,
        {
            let b = buf[k];
            result.push(b);
            assert(result@ == prev + buf@.subrange(start_index as int, k + 1 as int)) by {
                assert(buf@.subrange(start_index as int, k + 1 as int) == buf@.subrange(
                    start_index as int,
                    k as int,
                ).push(buf@[k as int]));
            }
            k = k + 1;
        }
        assert(result@ == prev + window_at(
            buf@,
            pick_offset as nat,
            pick_length as nat,
            index as nat,
        ));
        let ghost old_index = index as nat;
        index = if skip_num < rem {
            index + skip_num
        } else {
            buf.len()
        };
        proof {
            let bufs = buf@;
            let s = skip_num as nat;
            let po = pick_offset as nat;
            let pl = pick_length as nat;
            let next = if old_index + s <= bufs.len() {
                old_index + s
            } else {
                bufs.len()
            };
            assert(index as nat == next);
            assert(sample_spec(bufs, s, po, pl, old_index) == window_at(bufs, po, pl, old_index)
                + sample_spec(bufs, s, po, pl, next));
            assert(prev + (window_at(bufs, po, pl, old_index) + sample_spec(bufs, s, po, pl, next))
                == (prev + window_at(bufs, po, pl, old_index)) + sample_spec(
                bufs,
                s,
                po,
                pl,
                next,
            ));
        }
    }
    result
}

} // verus!
