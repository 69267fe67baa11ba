//! The sweep engine: enumerates sampling-parameter tuples from the input
//! lists, drives the window sampler and the classifier over each tuple, and
//! folds the per-tuple classifications into a sweep-level summary.
//!
//! Two enumeration modes exist. Combinatorial mode walks the full cross
//! product of the three lists: outer loop over the skip list, middle over the
//! pick-length list, inner over the pick-offset list, each in input order.
//! Paired mode walks the lists positionally in lock-step; a list shorter than
//! the longest is padded with the sentinel value zero. A padded position
//! yields a degenerate tuple (zero skip or zero pick length), which is
//! special-cased to an empty window rather than fed to the sampler unchanged.

use vstd::prelude::*;

verus! {

use crate::classify::Classification;
use crate::classify::classify;
use crate::classify::format_is_informative;
use crate::classify::format_name_of;
use crate::classify::format_short_code_of;
use crate::classify::opt_string_view;
use crate::sampler::sample_spec;
use crate::sampler::skiped_and_picked_file_buf;

/// One sampling-parameter tuple: the stride, the offset and length of the
/// region retained within each window, and the start offset in the source
/// buffer.
#[derive(Clone, Copy, Debug, PartialEq, Eq, Structural)]
pub struct Params {
    pub skip: usize,
    pub pick_offset: usize,
    pub pick_length: usize,
    pub file_offset: usize,
}

/// An invalid parameter list: a zero in a list whose entries must be
/// positive.
#[derive(Clone, Copy, Debug, PartialEq, Eq, Structural)]
pub enum ValidationError {
    ZeroSkip,
    ZeroPickLength,
}

pub open spec fn all_positive(s: Seq<usize>) -> bool {
    forall|i: int| 0 <= i < s.len() ==> s[i] > 0
}

/// Checks the user-supplied lists: every skip and every pick length must be
/// greater than zero. The skip list is checked first.
pub fn validate_parameters(skips: &Vec<usize>, lengths: &Vec<usize>) -> (r: Result<
    (),
    ValidationError,
>)
    ensures
        r is Ok <==> all_positive(skips@) && all_positive(lengths@),
        r == Result::<(), ValidationError>::Err(ValidationError::ZeroSkip) <==> !all_positive(
            skips@,
        ),
        r == Result::<(), ValidationError>::Err(ValidationError::ZeroPickLength) <==> (
        all_positive(skips@) && !all_positive(lengths@)),
{
    let mut i: usize = 0;
    while i < skips.len()
        invariant
            i <= skips.len(),
            forall|j: int| 0 <= j < i ==> skips@[j] > 0,
        decreases skips.len() - i,
    {
        if skips[i] == 0 {
            return Err(ValidationError::ZeroSkip);
        }
        i = i + 1;
    }
    assert(all_positive(skips@));
    let mut j: usize = 0;
    while j < lengths.len()
        invariant
            j <= lengths.len(),
            all_positive(skips@),
            forall|k: int| 0 <= k < j ==> lengths@[k] > 0,
        decreases lengths.len() - j,
    {
        if lengths[j] == 0 {
            assert(!all_positive(lengths@));
            return Err(ValidationError::ZeroPickLength);
        }
        j = j + 1;
    }
    Ok(())
}

/// The entry of `s` at `i`, or the zero sentinel where `s` is too short.
pub open spec fn pad_at(s: Seq<usize>, i: int) -> usize {
    if 0 <= i < s.len() {
        s[i]
    } else {
        0
    }
}

pub open spec fn max3(a: nat, b: nat, c: nat) -> nat {
    if a >= b && a >= c {
        a
    } else if b >= c {
        b
    } else {
        c
    }
}

/// Paired-mode enumeration: one tuple per position, the three lists walked in
/// lock-step, shorter lists padded with zero.
pub fn paired_tuples(
    skips: &Vec<usize>,
    lengths: &Vec<usize>,
    offsets: &Vec<usize>,
    file_offset: usize,
) -> (r: Vec<Params>)
    ensures
        r@.len() == max3(skips@.len(), lengths@.len(), offsets@.len()),
        forall|i: int|
            0 <= i < r@.len() ==> r@[i] == (Params {
                skip: pad_at(skips@, i),
                pick_offset: pad_at(offsets@, i),
                pick_length: pad_at(lengths@, i),
                file_offset,
            }),
{
    let mut n: usize = skips.len();
    if lengths.len() > n {
        n = lengths.len();
    }
    if offsets.len() > n {
        n = offsets.len();
    }
    assert(n as nat == max3(skips@.len(), lengths@.len(), offsets@.len()));
    let mut r: Vec<Params> = Vec::new();
    let mut i: usize = 0;
    while i < n
        invariant
            i <= n,
            r@.len() == i,
            forall|j: int|
                0 <= j < i ==> r@[j] == (Params {
                    skip: pad_at(skips@, j),
                    pick_offset: pad_at(offsets@, j),
                    pick_length: pad_at(lengths@, j),
                    file_offset,
                }),
        decreases n - i,
    {
        let skip = if i < skips.len() {
            skips[i]
        } else {
            0
        };
        let pick_length = if i < lengths.len() {
            lengths[i]
        } else {
            0
        };
        let pick_offset = if i < offsets.len() {
            offsets[i]
        } else {
            0
        };
        r.push(Params { skip, pick_offset, pick_length, file_offset });
        i = i + 1;
    }
    r
}

/// Combinatorial-mode row: the tuples for one skip and one pick length,
/// walking the pick-offset list in input order.
pub open spec fn offsets_row(
    skip: usize,
    pick_length: usize,
    offsets: Seq<usize>,
    file_offset: usize,
) -> Seq<Params>
    decreases offsets.len(),
{
    if offsets.len() == 0 {
        Seq::empty()
    } else {
        offsets_row(skip, pick_length, offsets.drop_last(), file_offset).push(
            Params { skip, pick_offset: offsets.last(), pick_length, file_offset },
        )
    }
}

/// Combinatorial-mode block: the tuples for one skip, walking the pick-length
/// list in input order.
pub open spec fn lengths_block(
    skip: usize,
    lengths: Seq<usize>,
    offsets: Seq<usize>,
    file_offset: usize,
) -> Seq<Params>
    decreases lengths.len(),
{
    if lengths.len() == 0 {
        Seq::empty()
    } else {
        lengths_block(skip, lengths.drop_last(), offsets, file_offset) + offsets_row(
            skip,
            lengths.last(),
            offsets,
            file_offset,
        )
    }
}

/// Combinatorial-mode enumeration: the full cross product of the three lists,
/// outer loop over skips, middle over pick lengths, inner over pick offsets,
/// each in input order. The scalar file offset applies to every tuple.
pub open spec fn cross_tuples(
    skips: Seq<usize>,
    lengths: Seq<usize>,
    offsets: Seq<usize>,
    file_offset: usize,
) -> Seq<Params>
    decreases skips.len(),
{
    if skips.len() == 0 {
        Seq::empty()
    } else {
        cross_tuples(skips.drop_last(), lengths, offsets, file_offset) + lengths_block(
            skips.last(),
            lengths,
            offsets,
            file_offset,
        )
    }
}

pub proof fn lemma_offsets_row_len(
    skip: usize,
    pick_length: usize,
    offsets: Seq<usize>,
    file_offset: usize,
)
    ensures
        offsets_row(skip, pick_length, offsets, file_offset).len() == offsets.len(),
    decreases offsets.len(),
{
    if offsets.len() > 0 {
        lemma_offsets_row_len(skip, pick_length, offsets.drop_last(), file_offset);
    }
}

pub proof fn lemma_lengths_block_len(
    skip: usize,
    lengths: Seq<usize>,
    offsets: Seq<usize>,
    file_offset: usize,
)
    ensures
        lengths_block(skip, lengths, offsets, file_offset).len() == lengths.len() * offsets.len(),
    decreases lengths.len(),
{
    if lengths.len() == 0 {
    } else {
        lemma_lengths_block_len(skip, lengths.drop_last(), offsets, file_offset);
        lemma_offsets_row_len(skip, lengths.last(), offsets, file_offset);
        let b = lengths.len() as int;
        let c = offsets.len() as int;
        assert(lengths.drop_last().len() == b - 1);
        assert(lengths_block(skip, lengths, offsets, file_offset).len() == (b - 1) * c + c);
        assert((b - 1) * c + c == b * c) by (nonlinear_arith);
    }
}

/// The cross product of lists of lengths `a`, `b`, `c` holds exactly
/// `a * b * c` tuples.
pub proof fn lemma_cross_tuples_len(
    skips: Seq<usize>,
    lengths: Seq<usize>,
    offsets: Seq<usize>,
    file_offset: usize,
)
    ensures
        cross_tuples(skips, lengths, offsets, file_offset).len() == skips.len() * lengths.len()
            * offsets.len(),
    decreases skips.len(),
{
    if skips.len() == 0 {
        assert(skips.len() * lengths.len() * offsets.len() == 0) by (nonlinear_arith)
            requires
                skips.len() == 0,
        ;
    } else {
        lemma_cross_tuples_len(skips.drop_last(), lengths, offsets, file_offset);
        lemma_lengths_block_len(skips.last(), lengths, offsets, file_offset);
        let a = skips.len() as int;
        let b = lengths.len() as int;
        let c = offsets.len() as int;
        assert(skips.drop_last().len() == a - 1);
        let n = cross_tuples(skips, lengths, offsets, file_offset).len() as int;
        assert(n == (a - 1) * b * c + b * c);
        assert(n == a * b * c) by (nonlinear_arith)
            requires
                n == (a - 1) * b * c + b * c,
        ;
    }
}

pub proof fn lemma_offsets_row_index(
    skip: usize,
    pick_length: usize,
    offsets: Seq<usize>,
    file_offset: usize,
    k: int,
)
    requires
        0 <= k < offsets.len(),
    ensures
        offsets_row(skip, pick_length, offsets, file_offset)[k] == (Params {
            skip,
            pick_offset: offsets[k],
            pick_length,
            file_offset,
        }),
    decreases offsets.len(),
{
    lemma_offsets_row_len(skip, pick_length, offsets.drop_last(), file_offset);
    if k == offsets.len() - 1 {
    } else {
        lemma_offsets_row_index(skip, pick_length, offsets.drop_last(), file_offset, k);
    }
}

pub proof fn lemma_lengths_block_index(
    skip: usize,
    lengths: Seq<usize>,
    offsets: Seq<usize>,
    file_offset: usize,
    j: int,
    k: int,
)
    requires
        0 <= j < lengths.len(),
        0 <= k < offsets.len(),
    ensures
        lengths_block(skip, lengths, offsets, file_offset)[j * offsets.len() + k] == (Params {
            skip,
            pick_offset: offsets[k],
            pick_length: lengths[j],
            file_offset,
        }),
    decreases lengths.len(),
{
    let b = lengths.len() as int;
    let c = offsets.len() as int;
    let n = j * c + k;
    lemma_lengths_block_len(skip, lengths.drop_last(), offsets, file_offset);
    lemma_offsets_row_len(skip, lengths.last(), offsets, file_offset);
    assert(lengths.drop_last().len() == b - 1);
    if j == b - 1 {
        assert(n - (b - 1) * c == k);
        lemma_offsets_row_index(skip, lengths.last(), offsets, file_offset, k);
    } else {
        assert(n < (b - 1) * c) by (nonlinear_arith)
            requires
                n == j * c + k,
                0 <= j < b - 1,
                0 <= k < c,
        ;
        lemma_lengths_block_index(skip, lengths.drop_last(), offsets, file_offset, j, k);
    }
}

/// Every tuple of the cross product is pinned by its three list indices:
/// the entry at `i * b * c + j * c + k` pairs the `i`-th skip with the `j`-th
/// pick length and the `k`-th pick offset, so tuples at distinct index
/// triples carry distinct parameter combinations whenever the lists repeat
/// no value.
pub proof fn lemma_cross_tuples_index(
    skips: Seq<usize>,
    lengths: Seq<usize>,
    offsets: Seq<usize>,
    file_offset: usize,
    i: int,
    j: int,
    k: int,
)
    requires
        0 <= i < skips.len(),
        0 <= j < lengths.len(),
        0 <= k < offsets.len(),
    ensures
        cross_tuples(skips, lengths, offsets, file_offset)[i * (lengths.len() * offsets.len())
            + j * offsets.len() + k] == (Params {
            skip: skips[i],
            pick_offset: offsets[k],
            pick_length: lengths[j],
            file_offset,
        }),
    decreases skips.len(),
{
    let a = skips.len() as int;
    let b = lengths.len() as int;
    let c = offsets.len() as int;
    let n = i * (b * c) + j * c + k;
    lemma_cross_tuples_len(skips.drop_last(), lengths, offsets, file_offset);
    lemma_lengths_block_len(skips.last(), lengths, offsets, file_offset);
    assert(skips.drop_last().len() == a - 1);
    assert(skips.drop_last().len() * lengths.len() * offsets.len() == (a - 1) * (b * c))
        by (nonlinear_arith)
        requires
            skips.drop_last().len() == a - 1,
            lengths.len() == b,
            offsets.len() == c,
    ;
    if i == a - 1 {
        assert(n - (a - 1) * (b * c) == j * c + k);
        assert(0 <= j * c + k < b * c) by (nonlinear_arith)
            requires
                0 <= j < b,
                0 <= k < c,
        ;
        lemma_lengths_block_index(skips.last(), lengths, offsets, file_offset, j, k);
    } else {
        assert(n < (a - 1) * (b * c)) by (nonlinear_arith)
            requires
                n == i * (b * c) + j * c + k,
                0 <= i < a - 1,
                0 <= j < b,
                0 <= k < c,
        ;
        assert(0 <= n) by (nonlinear_arith)
            requires
                n == i * (b * c) + j * c + k,
                0 <= i,
                0 <= j,
                0 <= k,
                0 <= b,
                0 <= c,
        ;
        lemma_cross_tuples_index(skips.drop_last(), lengths, offsets, file_offset, i, j, k);
    }
}

/// Combinatorial-mode enumeration of the parameter tuples.
pub fn combinate_tuples(
    skips: &Vec<usize>,
    lengths: &Vec<usize>,
    offsets: &Vec<usize>,
    file_offset: usize,
) -> (r: Vec<Params>)
    ensures
        r@ == cross_tuples(skips@, lengths@, offsets@, file_offset),
        r@.len() == skips@.len() * lengths@.len() * offsets@.len(),
{
    let mut r: Vec<Params> = Vec::new();
    let mut i: usize = 0;
    while i < skips.len()
        invariant
            i <= skips.len(),
            r@ == cross_tuples(skips@.take(i as int), lengths@, offsets@, file_offset),
        decreases skips.len() - i,
    {
        let skip = skips[i];
        let ghost outer_base = r@;
        let mut j: usize = 0;
        while j < lengths.len()
            invariant
                j <= lengths.len(),
                i < skips.len(),
                skip == skips@[i as int],
                outer_base == cross_tuples(skips@.take(i as int), lengths@, offsets@, file_offset),
                r@ == outer_base + lengths_block(
                    skip,
                    lengths@.take(j as int),
                    offsets@,
                    file_offset,
                ),
            decreases lengths.len() - j,
        {
            let pick_length = lengths[j];
            let ghost mid_base = r@;
            let mut k: usize = 0;
            while k < offsets.len()
                invariant
                    k <= offsets.len(),
                    j < lengths.len(),
                    pick_length == lengths@[j as int],
                    mid_base == r@.take(mid_base.len() as int) && mid_base.len() <= r@.len(),
                    r@ == mid_base + offsets_row(
                        skip,
                        pick_length,
                        offsets@.take(k as int),
                        file_offset,
                    ),
                decreases offsets.len() - k,
            {
                let pick_offset = offsets[k];
                r.push(Params { skip, pick_offset, pick_length, file_offset });
                proof {
                    let taken = offsets@.take(k as int + 1);
                    assert(taken.drop_last() =~= offsets@.take(k as int));
                    assert(taken.last() == offsets@[k as int]);
                    assert(r@ =~= mid_base + offsets_row(skip, pick_length, taken, file_offset));
                    assert(mid_base =~= r@.take(mid_base.len() as int));
                }
                k = k + 1;
            }
            proof {
                assert(offsets@.take(offsets@.len() as int) =~= offsets@);
                let taken = lengths@.take(j as int + 1);
                assert(taken.drop_last() =~= lengths@.take(j as int));
                assert(taken.last() == lengths@[j as int]);
                assert(r@ =~= outer_base + lengths_block(skip, taken, offsets@, file_offset));
            }
            j = j + 1;
        }
        proof {
            assert(lengths@.take(lengths@.len() as int) =~= lengths@);
            let taken = skips@.take(i as int + 1);
            assert(taken.drop_last() =~= skips@.take(i as int));
            assert(taken.last() == skips@[i as int]);
            assert(r@ =~= cross_tuples(taken, lengths@, offsets@, file_offset));
        }
        i = i + 1;
    }
    proof {
        assert(skips@.take(skips@.len() as int) =~= skips@);
        lemma_cross_tuples_len(skips@, lengths@, offsets@, file_offset);
    }
    r
}

/// The window that one tuple yields. A degenerate tuple (zero skip or zero
/// pick length, which only zero-padding in paired mode can produce) is
/// special-cased to an empty window, since a zero stride must not reach the
/// sampler.
pub open spec fn window_of(buf: Seq<u8>, p: Params) -> Seq<u8> {
    if p.skip == 0 || p.pick_length == 0 {
        Seq::empty()
    } else {
        sample_spec(
            buf,
            p.skip as nat,
            p.pick_offset as nat,
            p.pick_length as nat,
            p.file_offset as nat,
        )
    }
}

/// Samples the window of one tuple, guarding the degenerate zero-valued
/// tuples that paired-mode padding can produce.
pub fn sample_window(buf: &Vec<u8>, p: Params) -> (w: Vec<u8>)
    ensures
        w@ == window_of(buf@, p),
{
    if p.skip == 0 || p.pick_length == 0 {
        Vec::new()
    } else {
        skiped_and_picked_file_buf(p.skip, p.pick_offset, p.pick_length, p.file_offset, buf)
    }
}

/// One sweep step: the tuple, its sampled window, the classification the
/// window received, and whether the step is to be reported (printed and, if
/// requested, exported).
pub struct SweepStep {
    pub params: Params,
    pub window: Vec<u8>,
    pub class: Classification,
    pub report: bool,
}

/// The result of a whole sweep: one step per tuple, in enumeration order,
/// and the OR-fold of the per-step "informative" flags.
pub struct SweepOutcome {
    pub steps: Vec<SweepStep>,
    pub found_non_binary: bool,
}

/// `step` is what the sweep produces for the tuple `p`: the window follows
/// the sampling formula, the classification is the classifier's verdict on
/// that window, and the step is reported unless only-non-binary filtering is
/// active and the verdict is the binary fallback.
pub open spec fn step_valid(step: SweepStep, buf: Seq<u8>, p: Params, only: bool) -> bool {
    &&& step.params == p
    &&& step.window@ == window_of(buf, p)
    &&& step.class.name@ == format_name_of(window_of(buf, p))
    &&& opt_string_view(step.class.short_code) == format_short_code_of(window_of(buf, p))
    &&& step.class.informative == format_is_informative(window_of(buf, p))
    &&& step.report == !(only && !step.class.informative)
}

/// `o` is the outcome of sweeping `tuples` over `buf`: one valid step per
/// tuple, and `found_non_binary` exactly when some window classified as
/// something other than arbitrary binary data.
pub open spec fn sweep_outcome_valid(
    o: SweepOutcome,
    buf: Seq<u8>,
    tuples: Seq<Params>,
    only: bool,
) -> bool {
    &&& o.steps@.len() == tuples.len()
    &&& forall|i: int| 0 <= i < tuples.len() ==> step_valid(#[trigger] o.steps@[i], buf, tuples[i], only)
    &&& o.found_non_binary == exists|i: int|
        0 <= i < tuples.len() && #[trigger] format_is_informative(window_of(buf, tuples[i]))
}

/// Runs one sweep: samples and classifies the window of every tuple, in
/// order, decides for each whether it is reported, and folds the
/// classifications into the aggregate non-binary flag. Every tuple is
/// evaluated even when filtering suppresses its report.
pub fn run_sweep(buf: &Vec<u8>, tuples: &Vec<Params>, only: bool) -> (o: SweepOutcome)
    ensures
        sweep_outcome_valid(o, buf@, tuples@, only),
{
    let mut steps: Vec<SweepStep> = Vec::new();
    let mut found_non_binary = false;
    let mut i: usize = 0;
    while i < tuples.len()
        invariant
            i <= tuples.len(),
            steps@.len() == i,
            forall|j: int|
                0 <= j < i ==> step_valid(#[trigger] steps@[j], buf@, tuples@[j], only),
            found_non_binary == exists|j: int|
                0 <= j < i && #[trigger] format_is_informative(window_of(buf@, tuples@[j])),
        decreases tuples.len() - i,
    {
        let p = tuples[i];
        let window = sample_window(buf, p);
        let class = classify(&window);
        let informative = class.informative;
        let report = !(only && !informative);
        steps.push(SweepStep { params: p, window, class, report });
        proof {
            if informative {
                assert(format_is_informative(window_of(buf@, tuples@[i as int])));
            } else {
                assert(forall|j: int|
                    0 <= j < i + 1 ==> !#[trigger] format_is_informative(
                        window_of(buf@, tuples@[j]),
                    ) || (found_non_binary || informative));
            }
        }
        found_non_binary = found_non_binary || informative;
        i = i + 1;
    }
    SweepOutcome { steps, found_non_binary }
}

/// Whether the closing summary line is owed: only-non-binary filtering was
/// active and no tuple in the whole sweep classified as non-binary.
pub fn summary_line_needed(only: bool, found_non_binary: bool) -> (r: bool)
    ensures
        r == (only && !found_non_binary),
{
    only && !found_non_binary
}

/// With only-non-binary filtering active, a sweep in which every window
/// classifies as arbitrary binary data reports no step at all, and the
/// aggregate flag stays false, so exactly the one summary line is owed.
pub proof fn lemma_all_binary_suppresses_reports(
    o: SweepOutcome,
    buf: Seq<u8>,
    tuples: Seq<Params>,
    only: bool,
)
    requires
        sweep_outcome_valid(o, buf, tuples, only),
        only,
        forall|i: int|
            0 <= i < tuples.len() ==> !#[trigger] format_is_informative(window_of(buf, tuples[i])),
    ensures
        forall|i: int| 0 <= i < o.steps@.len() ==> !(#[trigger] o.steps@[i]).report,
        !o.found_non_binary,
{
    assert(forall|i: int| 0 <= i < o.steps@.len() ==> !(#[trigger] o.steps@[i]).report) by {
        assert(forall|i: int|
            0 <= i < tuples.len() ==> step_valid(#[trigger] o.steps@[i], buf, tuples[i], only));
    }
}

} // verus!
