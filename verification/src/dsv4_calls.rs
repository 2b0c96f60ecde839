//! What a call of the plan builder gives, over its arguments and its result alone.
//!
//! Each law takes the call as its hypothesis: `call_ensures(build_dsv4_comp_plan, args, result)`
//! says that `result` is what the builder may answer on `args`. What follows is said of positions,
//! tokens and rows directly, in plain arithmetic. Token `i` completes a block where its position
//! `pos` is not negative and `pos + 1` is a multiple of the ratio.

use crate::dsv4_laws::{
    law_commit_counts, law_last_token_at, law_plan_is_determined, law_read_layout,
    law_visible_rows_floor, law_width, lemma_ascending_unique, lemma_block_end,
};
use crate::dsv4_plan::{
    build_dsv4_comp_plan, lemma_kept_exists, Dsv4CompPlan, PlanError, DSV4_CSA_RATIO, DSV4_HCA_RATIO,
    DSV4_N_KV_PAD,
};
use crate::dsv4_spec::{
    block_ends, completed_blocks, ends_block, kept_token, lands_on, last_token_at, most_completed,
    source_row, touched, valid_positions,
};
use vstd::arithmetic::div_mod::{lemma_mod_bound, lemma_mod_decreases};
use vstd::prelude::*;

verus! {

/// The ratios of the two compressors, and the multiple that the width is padded to.
pub proof fn law_sizes()
    ensures
        DSV4_CSA_RATIO == 4,
        DSV4_HCA_RATIO == 128,
        DSV4_N_KV_PAD == 256,
{
}

/// The builder refuses more than one sequence, and nothing else.
pub proof fn law_refusal(
    positions: &[i32],
    n_seqs: u32,
    ratio: u32,
    overlap: bool,
    state_size: u32,
    kv_size: u32,
    r: Result<Dsv4CompPlan, PlanError>,
)
    requires
        call_ensures(
            build_dsv4_comp_plan,
            (positions, n_seqs, ratio, overlap, state_size, kv_size),
            r,
        ),
    ensures
        r is Ok <==> n_seqs <= 1,
        n_seqs > 1 ==> r == Err::<Dsv4CompPlan, PlanError>(PlanError::MultipleSequences),
{
}

/// The builder may be called on every ubatch of a compressor whose ratio, ring and cache are not
/// empty, and asks nothing of them where it refuses or where all tokens are padding.
pub proof fn law_accepts(
    positions: &[i32],
    n_seqs: u32,
    ratio: u32,
    overlap: bool,
    state_size: u32,
    kv_size: u32,
)
    requires
        ({
            ||| n_seqs > 1
            ||| forall|i: int| 0 <= i < positions@.len() ==> positions@[i] < 0
            ||| ratio > 0 && state_size > 0 && (kv_size > 0 || ratio != DSV4_CSA_RATIO)
        }),
    ensures
        call_requires(
            build_dsv4_comp_plan,
            (positions, n_seqs, ratio, overlap, state_size, kv_size),
        ),
{
    if valid_positions(positions@).len() > 0 {
        lemma_first_valid(positions@);
    }
}

/// The first valid position is that of some token, and no valid token comes before it.
proof fn lemma_first_valid(positions: Seq<i32>) -> (i: int)
    requires
        valid_positions(positions).len() > 0,
    ensures
        0 <= i < positions.len(),
        positions[i] >= 0,
        valid_positions(positions)[0] == positions[i],
        forall|j: int| 0 <= j < i ==> positions[j] < 0,
    decreases positions.len(),
{
    reveal(Seq::filter);
    let rest = positions.drop_last();
    if valid_positions(rest).len() > 0 {
        let i = lemma_first_valid(rest);
        assert(positions[i] == rest[i]);
        assert forall|j: int| 0 <= j < i implies positions[j] < 0 by {
            assert(rest[j] == positions[j]);
        }
        i
    } else {
        assert forall|j: int| 0 <= j < rest.len() implies positions[j] < 0 by {
            if positions[j] >= 0 {
                rest.lemma_filter_contains(|pos: i32| pos >= 0, j);
            }
        }
        positions.len() - 1
    }
}

/// An entry that a filter keeps comes after as many others as the filter keeps before it.
proof fn lemma_filter_slot(s: Seq<i32>, keep: spec_fn(i32) -> bool, i: int)
    requires
        0 <= i < s.len(),
        keep(s[i]),
    ensures
        s.take(i).filter(keep).len() < s.filter(keep).len(),
        s.filter(keep)[s.take(i).filter(keep).len() as int] == s[i],
{
    let head = s.take(i + 1);
    assert(s =~= head + s.skip(i + 1));
    Seq::filter_distributes_over_add(head, s.skip(i + 1), keep);
    assert(head =~= s.take(i).push(s[i]));
    s.take(i).lemma_filter_push(s[i], keep);
}

/// One entry per token. Padding sees nothing; a token at `pos` sees as many rows as there are whole
/// blocks in `0..=pos`, at every position and every ratio.
pub proof fn law_n_visible(
    positions: &[i32],
    n_seqs: u32,
    ratio: u32,
    overlap: bool,
    state_size: u32,
    kv_size: u32,
    plan: Dsv4CompPlan,
    i: int,
)
    requires
        call_ensures(
            build_dsv4_comp_plan,
            (positions, n_seqs, ratio, overlap, state_size, kv_size),
            Ok(plan),
        ),
        0 <= i < positions@.len(),
    ensures
        plan.n_visible@.len() == positions@.len(),
        positions@[i] < 0 ==> plan.n_visible@[i] == 0,
        positions@[i] >= 0 ==> plan.n_visible@[i] == ((positions@[i] + 1) / (ratio as int)) as i32,
        positions@[i] >= 0 && ratio > 0 && (positions@[i] < i32::MAX || ratio > 1) ==> {
            &&& plan.n_visible@[i] * ratio <= positions@[i] + 1
            &&& positions@[i] + 1 < (plan.n_visible@[i] + 1) * ratio
        },
{
    if positions@[i] >= 0 && ratio > 0 && (positions@[i] < i32::MAX || ratio > 1) {
        law_visible_rows_floor(positions@, ratio, i);
    }
}

/// Padding alone gives no width and no entry but the zeros of `n_visible`.
pub proof fn law_padding_plans_nothing(
    positions: &[i32],
    n_seqs: u32,
    ratio: u32,
    overlap: bool,
    state_size: u32,
    kv_size: u32,
    plan: Dsv4CompPlan,
)
    requires
        call_ensures(
            build_dsv4_comp_plan,
            (positions, n_seqs, ratio, overlap, state_size, kv_size),
            Ok(plan),
        ),
        forall|i: int| 0 <= i < positions@.len() ==> positions@[i] < 0,
    ensures
        plan.n_visible@ == Seq::new(positions@.len(), |i: int| 0i32),
        plan.n_kv == 0,
        plan.state_pos@.len() == 0,
        plan.state_read_idxs@.len() == 0,
        plan.state_write_idxs@.len() == 0,
        plan.state_write_pos@.len() == 0,
        plan.state_persist_src_idxs@.len() == 0,
        plan.state_persist_dst_idxs@.len() == 0,
{
    if valid_positions(positions@).len() > 0 {
        lemma_first_valid(positions@);
    }
    lemma_no_block(positions@, ratio);
    lemma_padding_width(positions@, ratio);
    assert(plan.n_visible@ =~= Seq::new(positions@.len(), |i: int| 0i32));
    assert(block_ends(positions@, ratio).len() * (ratio as nat) == 0) by (nonlinear_arith)
        requires
            block_ends(positions@, ratio).len() == 0,
    ;
    let dst = plan.state_persist_dst_idxs@;
    if dst.len() > 0 {
        assert(dst.contains(dst[0]));
        let i = choose|i: int| lands_on(positions@, state_size, dst[0] as int, i);
        assert(positions@[i] < 0);
    }
}

proof fn lemma_padding_width(positions: Seq<i32>, ratio: u32)
    requires
        forall|i: int| 0 <= i < positions.len() ==> positions[i] < 0,
    ensures
        most_completed(positions, ratio) == 0,
    decreases positions.len(),
{
    if positions.len() > 0 {
        let rest = positions.drop_last();
        assert forall|i: int| 0 <= i < rest.len() implies rest[i] < 0 by {
            assert(positions[i] < 0);
        }
        lemma_padding_width(rest, ratio);
    }
}

/// The blocks are those of the tokens that complete one; there is none where no token does.
proof fn lemma_no_block(positions: Seq<i32>, ratio: u32)
    requires
        forall|i: int|
            0 <= i < positions.len() ==> !(#[trigger] positions[i] >= 0 && (positions[i] + 1) % (
            ratio as int) == 0),
    ensures
        block_ends(positions, ratio).len() == 0,
{
    let ends = block_ends(positions, ratio);
    if ends.len() > 0 {
        positions.lemma_filter_pred(|pos: i32| ends_block(pos, ratio), 0);
        assert(ends.contains(ends[0]));
        positions.lemma_filter_contains_rev(|pos: i32| ends_block(pos, ratio), ends[0]);
        let i = choose|i: int| 0 <= i < positions.len() && positions[i] == ends[0];
        assert(positions[i] >= 0);
    }
}

/// The width is a multiple of the padding, at least what every token sees, and less than one
/// padding more than what some token sees; it is zero where no token sees a row.
pub proof fn law_n_kv(
    positions: &[i32],
    n_seqs: u32,
    ratio: u32,
    overlap: bool,
    state_size: u32,
    kv_size: u32,
    plan: Dsv4CompPlan,
)
    requires
        call_ensures(
            build_dsv4_comp_plan,
            (positions, n_seqs, ratio, overlap, state_size, kv_size),
            Ok(plan),
        ),
        ratio > 0,
    ensures
        plan.n_kv as int % 256 == 0,
        forall|i: int|
            0 <= i < positions@.len() && #[trigger] positions@[i] >= 0 ==> (positions@[i] + 1) / (
            ratio as int) <= plan.n_kv,
        plan.n_kv > 0 ==> exists|i: int|
            0 <= i < positions@.len() && #[trigger] positions@[i] >= 0 && (positions@[i] + 1) / (
            ratio as int) > plan.n_kv - 256,
{
    law_width(positions@, ratio);
    assert forall|i: int| 0 <= i < positions@.len() && #[trigger] positions@[i] >= 0 implies (
    positions@[i] + 1) / (ratio as int) <= plan.n_kv by {
        assert(completed_blocks(positions@[i], ratio) <= plan.n_kv);
    }
    if plan.n_kv > 0 {
        let i = choose|i: int|
            0 <= i < positions@.len() && positions@[i] >= 0 && completed_blocks(
                #[trigger] positions@[i],
                ratio,
            ) > plan.n_kv - DSV4_N_KV_PAD;
        assert(positions@[i] >= 0);
    }
}

/// One entry per token that is not padding, in token order: the position's place in its block.
pub proof fn law_state_pos(
    positions: &[i32],
    n_seqs: u32,
    ratio: u32,
    overlap: bool,
    state_size: u32,
    kv_size: u32,
    plan: Dsv4CompPlan,
    i: int,
)
    requires
        call_ensures(
            build_dsv4_comp_plan,
            (positions, n_seqs, ratio, overlap, state_size, kv_size),
            Ok(plan),
        ),
        ratio > 0,
        0 <= i < positions@.len(),
        positions@[i] >= 0,
    ensures
        plan.state_pos@.len() == positions@.filter(|p: i32| p >= 0).len(),
        ({
            let slot = positions@.take(i).filter(|p: i32| p >= 0).len() as int;
            &&& 0 <= slot < plan.state_pos@.len()
            &&& plan.state_pos@[slot] == positions@[i] as int % ratio as int
        }),
{
    let keep = |p: i32| p >= 0;
    let valid = |pos: i32| pos >= 0;
    assert(keep =~= valid);
    lemma_filter_slot(positions@, keep, i);
    lemma_mod_decreases(positions@[i] as nat, ratio as nat);
    lemma_mod_bound(positions@[i] as int, ratio as int);
}

/// The tokens that complete a block, in the two ways of writing it.
proof fn lemma_block_ends_plain(positions: Seq<i32>, ratio: u32)
    ensures
        block_ends(positions, ratio) == positions.filter(
            |p: i32| p >= 0 && (p + 1) % (ratio as int) == 0,
        ),
{
    let keep = |p: i32| p >= 0 && (p + 1) % (ratio as int) == 0;
    let ends = |pos: i32| ends_block(pos, ratio);
    assert(keep =~= ends);
}

/// Every token that completes a block is committed, at every position and every ratio: the commits
/// come in token order, one per such token, each writing the cache row of its block, roped at the
/// block's first position.
pub proof fn law_every_block_is_committed(
    positions: &[i32],
    n_seqs: u32,
    ratio: u32,
    overlap: bool,
    state_size: u32,
    kv_size: u32,
    plan: Dsv4CompPlan,
    i: int,
)
    requires
        call_ensures(
            build_dsv4_comp_plan,
            (positions, n_seqs, ratio, overlap, state_size, kv_size),
            Ok(plan),
        ),
        ratio > 0,
        0 <= i < positions@.len(),
        positions@[i] >= 0,
        (positions@[i] + 1) % (ratio as int) == 0,
    ensures
        plan.state_write_idxs@.len() == positions@.filter(
            |p: i32| p >= 0 && (p + 1) % (ratio as int) == 0,
        ).len(),
        plan.state_write_pos@.len() == plan.state_write_idxs@.len(),
        plan.state_write_idxs@.contains((positions@[i] as int / ratio as int) as i32),
        ({
            let b = positions@.take(i).filter(
                |p: i32| p >= 0 && (p + 1) % (ratio as int) == 0,
            ).len() as int;
            &&& 0 <= b < plan.state_write_idxs@.len()
            &&& plan.state_write_idxs@[b] == positions@[i] as int / ratio as int
            &&& plan.state_write_idxs@[b] * ratio == positions@[i] + 1 - ratio
            &&& plan.state_write_pos@[b] == positions@[i] + 1 - ratio
        }),
{
    let keep = |p: i32| p >= 0 && (p + 1) % (ratio as int) == 0;
    lemma_block_ends_plain(positions@, ratio);
    lemma_filter_slot(positions@, keep, i);
    let b = positions@.take(i).filter(keep).len() as int;
    lemma_block_end(positions@[i], ratio);
    assert(plan.state_write_idxs@[b] == (positions@[i] as int / ratio as int) as i32);
}

/// A CSA ubatch with some token, none of which completes a block, has one commit: the dummy, which
/// writes the last row of the cache, roped at zero. The row lies within the cache.
pub proof fn law_dummy(
    positions: &[i32],
    n_seqs: u32,
    overlap: bool,
    state_size: u32,
    kv_size: u32,
    plan: Dsv4CompPlan,
    i: int,
)
    requires
        call_ensures(
            build_dsv4_comp_plan,
            (positions, n_seqs, DSV4_CSA_RATIO, overlap, state_size, kv_size),
            Ok(plan),
        ),
        kv_size > 0,
        0 <= i < positions@.len(),
        positions@[i] >= 0,
        forall|j: int|
            0 <= j < positions@.len() ==> !(#[trigger] positions@[j] >= 0 && (positions@[j] + 1) % 4
                == 0),
    ensures
        plan.state_write_idxs@.len() == 1,
        plan.state_write_idxs@[0] == (kv_size - 1) as i32,
        plan.state_write_idxs@[0] < kv_size,
        kv_size - 1 <= i32::MAX ==> plan.state_write_idxs@[0] == kv_size - 1,
        plan.state_write_pos@ == seq![0i32],
{
    lemma_no_block(positions@, DSV4_CSA_RATIO);
    positions@.lemma_filter_contains(|pos: i32| pos >= 0, i);
}

/// Every read of the dummy gives the row of the first token that is not padding: the scratch row of
/// the last token at that token's position. There are as many as a block would read.
pub proof fn law_dummy_reads(
    positions: &[i32],
    n_seqs: u32,
    overlap: bool,
    state_size: u32,
    kv_size: u32,
    plan: Dsv4CompPlan,
    first: int,
    last: int,
)
    requires
        call_ensures(
            build_dsv4_comp_plan,
            (positions, n_seqs, DSV4_CSA_RATIO, overlap, state_size, kv_size),
            Ok(plan),
        ),
        0 <= first <= last < positions@.len(),
        positions@[first] >= 0,
        forall|j: int| 0 <= j < first ==> positions@[j] < 0,
        positions@[last] == positions@[first],
        forall|j: int| last < j < positions@.len() ==> positions@[j] != positions@[first],
        forall|j: int|
            0 <= j < positions@.len() ==> !(#[trigger] positions@[j] >= 0 && (positions@[j] + 1) % 4
                == 0),
    ensures
        plan.state_read_idxs@ == Seq::new(
            if overlap {
                8
            } else {
                4
            },
            |k: int| (state_size + last) as i32,
        ),
{
    lemma_no_block(positions@, DSV4_CSA_RATIO);
    positions@.lemma_filter_contains(|pos: i32| pos >= 0, first);
    let i = lemma_first_valid(positions@);
    assert(i == first);
    law_last_token_at(positions@, positions@[first] as int);
    assert(last_token_at(positions@, positions@[first] as int) == Some(last));
    assert(plan.state_read_idxs@ =~= Seq::new(
        if overlap {
            8
        } else {
            4
        },
        |k: int| (state_size + last) as i32,
    ));
}

/// At any ratio but that of CSA a ubatch that completes no block commits and reads nothing.
pub proof fn law_no_block_no_commit(
    positions: &[i32],
    n_seqs: u32,
    ratio: u32,
    overlap: bool,
    state_size: u32,
    kv_size: u32,
    plan: Dsv4CompPlan,
)
    requires
        call_ensures(
            build_dsv4_comp_plan,
            (positions, n_seqs, ratio, overlap, state_size, kv_size),
            Ok(plan),
        ),
        ratio != DSV4_CSA_RATIO,
        forall|j: int|
            0 <= j < positions@.len() ==> !(#[trigger] positions@[j] >= 0 && (positions@[j] + 1) % (
            ratio as int) == 0),
    ensures
        plan.state_write_idxs@.len() == 0,
        plan.state_write_pos@.len() == 0,
        plan.state_read_idxs@.len() == 0,
{
    lemma_no_block(positions@, ratio);
    assert(block_ends(positions@, ratio).len() * (ratio as nat) == 0) by (nonlinear_arith)
        requires
            block_ends(positions@, ratio).len() == 0,
    ;
}

/// Each commit reads `ratio` rows per window: one window, or two where the compressor overlaps.
pub proof fn law_read_count(
    positions: &[i32],
    n_seqs: u32,
    ratio: u32,
    overlap: bool,
    state_size: u32,
    kv_size: u32,
    plan: Dsv4CompPlan,
)
    requires
        call_ensures(
            build_dsv4_comp_plan,
            (positions, n_seqs, ratio, overlap, state_size, kv_size),
            Ok(plan),
        ),
    ensures
        !overlap ==> plan.state_read_idxs@.len() == plan.state_write_idxs@.len() * ratio,
        overlap ==> plan.state_read_idxs@.len() == plan.state_write_idxs@.len() * ratio * 2,
        plan.state_write_pos@.len() == plan.state_write_idxs@.len(),
{
    law_commit_counts(positions@, ratio, overlap, state_size, kv_size);
}

/// Which row a position is read from, case by case.
proof fn lemma_source_row(positions: Seq<i32>, state_size: u32, pos: int)
    ensures
        pos < 0 ==> source_row(positions, state_size, pos) == (state_size + positions.len()) as i32,
        forall|t: int|
            pos >= 0 && 0 <= t < positions.len() && #[trigger] positions[t] == pos && (forall|u: int|
                t < u < positions.len() ==> positions[u] != pos) ==> source_row(
                positions,
                state_size,
                pos,
            ) == (state_size + t) as i32,
        pos >= 0 && (forall|t: int| 0 <= t < positions.len() ==> positions[t] != pos)
            ==> source_row(positions, state_size, pos) == (pos % state_size as int) as i32,
{
    law_last_token_at(positions, pos);
}

/// Each block reads, position by position of its own window, the state of that position: from the
/// scratch row of the last token there where the ubatch has one, and from the ring row otherwise.
/// The windows stand block after block, behind the previous windows where the compressor overlaps.
pub proof fn law_own_window(
    positions: &[i32],
    n_seqs: u32,
    ratio: u32,
    overlap: bool,
    state_size: u32,
    kv_size: u32,
    plan: Dsv4CompPlan,
    i: int,
    j: int,
)
    requires
        call_ensures(
            build_dsv4_comp_plan,
            (positions, n_seqs, ratio, overlap, state_size, kv_size),
            Ok(plan),
        ),
        0 <= i < positions@.len(),
        positions@[i] >= 0,
        (positions@[i] + 1) % (ratio as int) == 0,
        0 <= j < ratio,
    ensures
        ({
            let n = positions@.filter(|p: i32| p >= 0 && (p + 1) % (ratio as int) == 0).len();
            let b = positions@.take(i).filter(
                |p: i32| p >= 0 && (p + 1) % (ratio as int) == 0,
            ).len();
            let row = plan.state_read_idxs@[(if overlap {
                n * ratio
            } else {
                0
            }) + b * ratio + j];
            let pos = positions@[i] + 1 - ratio + j;
            &&& pos >= 0
            &&& forall|t: int|
                0 <= t < positions@.len() && #[trigger] positions@[t] == pos && (forall|u: int|
                    t < u < positions@.len() ==> positions@[u] != pos) ==> row == (state_size
                    + t) as i32
            &&& (forall|t: int| 0 <= t < positions@.len() ==> positions@[t] != pos) ==> row == (pos
                % state_size as int) as i32
        }),
{
    let keep = |p: i32| p >= 0 && (p + 1) % (ratio as int) == 0;
    lemma_block_ends_plain(positions@, ratio);
    lemma_filter_slot(positions@, keep, i);
    let b = positions@.take(i).filter(keep).len() as int;
    law_read_layout(positions@, ratio, overlap, state_size, b, j);
    let pos = positions@[i] + 1 - ratio + j;
    lemma_source_row(positions@, state_size, pos);
    if positions@[i] + 1 < ratio {
        vstd::arithmetic::div_mod::lemma_small_mod((positions@[i] + 1) as nat, ratio as nat);
    }
}

/// An overlapping compressor first reads, for each block in turn, the window before it: the
/// sentinel for positions before the sequence, and otherwise as for the block's own window.
pub proof fn law_previous_window(
    positions: &[i32],
    n_seqs: u32,
    ratio: u32,
    state_size: u32,
    kv_size: u32,
    plan: Dsv4CompPlan,
    i: int,
    j: int,
)
    requires
        call_ensures(
            build_dsv4_comp_plan,
            (positions, n_seqs, ratio, true, state_size, kv_size),
            Ok(plan),
        ),
        0 <= i < positions@.len(),
        positions@[i] >= 0,
        (positions@[i] + 1) % (ratio as int) == 0,
        0 <= j < ratio,
    ensures
        ({
            let b = positions@.take(i).filter(
                |p: i32| p >= 0 && (p + 1) % (ratio as int) == 0,
            ).len();
            let row = plan.state_read_idxs@[b * ratio + j];
            let pos = positions@[i] + 1 - 2 * ratio + j;
            &&& pos < 0 ==> row == (state_size + positions@.len()) as i32
            &&& forall|t: int|
                pos >= 0 && 0 <= t < positions@.len() && #[trigger] positions@[t] == pos && (forall|
                    u: int,
                | t < u < positions@.len() ==> positions@[u] != pos) ==> row == (state_size
                    + t) as i32
            &&& pos >= 0 && (forall|t: int| 0 <= t < positions@.len() ==> positions@[t] != pos)
                ==> row == (pos % state_size as int) as i32
        }),
{
    let keep = |p: i32| p >= 0 && (p + 1) % (ratio as int) == 0;
    lemma_block_ends_plain(positions@, ratio);
    lemma_filter_slot(positions@, keep, i);
    let b = positions@.take(i).filter(keep).len() as int;
    law_read_layout(positions@, ratio, true, state_size, b, j);
    lemma_source_row(positions@, state_size, positions@[i] + 1 - 2 * ratio + j);
}

/// The ring rows written are those of the tokens' positions, all of them, each once and in
/// ascending order.
pub proof fn law_ring_rows(
    positions: &[i32],
    n_seqs: u32,
    ratio: u32,
    overlap: bool,
    state_size: u32,
    kv_size: u32,
    plan: Dsv4CompPlan,
)
    requires
        call_ensures(
            build_dsv4_comp_plan,
            (positions, n_seqs, ratio, overlap, state_size, kv_size),
            Ok(plan),
        ),
        state_size > 0,
    ensures
        forall|k: int, l: int|
            0 <= k < l < plan.state_persist_dst_idxs@.len() ==> plan.state_persist_dst_idxs@[k]
                < plan.state_persist_dst_idxs@[l],
        forall|i: int|
            0 <= i < positions@.len() && #[trigger] positions@[i] >= 0 ==> exists|k: int|
                0 <= k < plan.state_persist_dst_idxs@.len()
                    && #[trigger] plan.state_persist_dst_idxs@[k] == positions@[i] as int
                    % state_size as int,
        plan.state_persist_src_idxs@.len() == plan.state_persist_dst_idxs@.len(),
{
    let dst = plan.state_persist_dst_idxs@;
    assert forall|i: int| 0 <= i < positions@.len() && #[trigger] positions@[i] >= 0 implies exists|
        k: int,
    |
        0 <= k < dst.len() && #[trigger] dst[k] == positions@[i] as int % state_size as int by {
        let row = positions@[i] as int % state_size as int;
        lemma_mod_decreases(positions@[i] as nat, state_size as nat);
        lemma_mod_bound(positions@[i] as int, state_size as int);
        assert(lands_on(positions@, state_size, row, i));
        assert(touched(positions@, state_size, (row as i32) as int));
        assert(dst.contains(row as i32));
        let k = choose|k: int| 0 <= k < dst.len() && dst[k] == row as i32;
        assert(dst[k] == row);
    }
}

/// Each ring row written gets the state of a token whose position belongs to the row, the highest
/// such position, and the first token there.
pub proof fn law_ring_tokens(
    positions: &[i32],
    n_seqs: u32,
    ratio: u32,
    overlap: bool,
    state_size: u32,
    kv_size: u32,
    plan: Dsv4CompPlan,
    k: int,
)
    requires
        call_ensures(
            build_dsv4_comp_plan,
            (positions, n_seqs, ratio, overlap, state_size, kv_size),
            Ok(plan),
        ),
        state_size > 0,
        0 <= k < plan.state_persist_dst_idxs@.len(),
    ensures
        0 <= plan.state_persist_dst_idxs@[k] < state_size,
        exists|t: int|
            {
                &&& 0 <= t < positions@.len()
                &&& #[trigger] positions@[t] >= 0
                &&& plan.state_persist_src_idxs@[k] == t as i32
                &&& positions@[t] as int % state_size as int == plan.state_persist_dst_idxs@[k]
                &&& forall|u: int|
                    0 <= u < positions@.len() && #[trigger] positions@[u] >= 0
                        && positions@[u] as int % state_size as int
                        == plan.state_persist_dst_idxs@[k] ==> positions@[u] < positions@[t] || (
                    positions@[u] == positions@[t] && t <= u)
            },
{
    let dst = plan.state_persist_dst_idxs@;
    let row = dst[k] as int;
    assert(dst.contains(dst[k]));
    lemma_kept_exists(positions@, state_size, row);
    let t = kept_token(positions@, state_size, row);
    assert(plan.state_persist_src_idxs@[k] == t as i32);
    assert(positions@[t] >= 0);
    lemma_mod_bound(positions@[t] as int, state_size as int);
    assert forall|u: int|
        0 <= u < positions@.len() && #[trigger] positions@[u] >= 0 && positions@[u] as int
            % state_size as int == row implies positions@[u] < positions@[t] || (positions@[u]
        == positions@[t] && t <= u) by {
        assert(lands_on(positions@, state_size, row, u));
    }
}

/// Two calls on the same ubatch and compressor give the same plan.
pub proof fn law_same_call_same_plan(
    positions: &[i32],
    n_seqs: u32,
    ratio: u32,
    overlap: bool,
    state_size: u32,
    kv_size: u32,
    p: Dsv4CompPlan,
    q: Dsv4CompPlan,
)
    requires
        call_ensures(
            build_dsv4_comp_plan,
            (positions, n_seqs, ratio, overlap, state_size, kv_size),
            Ok(p),
        ),
        call_ensures(
            build_dsv4_comp_plan,
            (positions, n_seqs, ratio, overlap, state_size, kv_size),
            Ok(q),
        ),
    ensures
        p.n_visible@ == q.n_visible@,
        p.n_kv == q.n_kv,
        p.state_pos@ == q.state_pos@,
        p.state_read_idxs@ == q.state_read_idxs@,
        p.state_write_idxs@ == q.state_write_idxs@,
        p.state_write_pos@ == q.state_write_pos@,
        p.state_persist_src_idxs@ == q.state_persist_src_idxs@,
        p.state_persist_dst_idxs@ == q.state_persist_dst_idxs@,
{
    law_plan_is_determined(
        p,
        q,
        positions@,
        ratio,
        overlap,
        state_size,
        kv_size,
    );
}

/// The size of the cache decides nothing but the row of the dummy, and the compressor's overlap
/// nothing but the reads.
pub proof fn law_what_cache_and_overlap_decide(
    positions: &[i32],
    n_seqs: u32,
    ratio: u32,
    state_size: u32,
    overlap: bool,
    kv_size: u32,
    p: Dsv4CompPlan,
    other_overlap: bool,
    other_kv_size: u32,
    q: Dsv4CompPlan,
)
    requires
        call_ensures(
            build_dsv4_comp_plan,
            (positions, n_seqs, ratio, overlap, state_size, kv_size),
            Ok(p),
        ),
        call_ensures(
            build_dsv4_comp_plan,
            (positions, n_seqs, ratio, other_overlap, state_size, other_kv_size),
            Ok(q),
        ),
    ensures
        p.n_visible@ == q.n_visible@,
        p.n_kv == q.n_kv,
        p.state_pos@ == q.state_pos@,
        p.state_write_pos@ == q.state_write_pos@,
        p.state_persist_src_idxs@ == q.state_persist_src_idxs@,
        p.state_persist_dst_idxs@ == q.state_persist_dst_idxs@,
        overlap == other_overlap ==> p.state_read_idxs@ == q.state_read_idxs@,
        kv_size == other_kv_size ==> p.state_write_idxs@ == q.state_write_idxs@,
{
    lemma_ascending_unique(
        p.state_persist_dst_idxs@,
        q.state_persist_dst_idxs@,
    );
    assert(p.state_persist_src_idxs@ =~= q.state_persist_src_idxs@);
}

} // verus!
