//! What holds of every compressor plan, and of the plans of successive ubatches.

use crate::dsv4_plan::{
    lemma_keeps_unique, lemma_kept_exists, Dsv4CompPlan, DSV4_CSA_RATIO, DSV4_N_KV_PAD,
};
use crate::dsv4_spec::{
    block_ends, cache_rows, completed_blocks, ends_block, keeps, kept_token, lands_on,
    last_token_at, most_completed, needs_dummy, padded_width, persists, rope_positions,
    rows_in_block, source_row, state_reads, touched, valid_positions, visible_rows, window_reads,
};
use vstd::arithmetic::div_mod::{
    lemma_div_pos_is_pos, lemma_fundamental_div_mod, lemma_fundamental_div_mod_converse,
    lemma_mod_bound, lemma_mod_decreases,
};
use vstd::prelude::*;

verus! {

/// The number of visible rows is a floor: a token sees the blocks that are complete at its
/// position, and not the partial block after them.
pub proof fn law_visible_rows_floor(positions: Seq<i32>, ratio: u32, i: int)
    requires
        ratio > 0,
        0 <= i < positions.len(),
        positions[i] >= 0,
        positions[i] < i32::MAX || ratio > 1,
    ensures
        visible_rows(positions, ratio)[i] * ratio <= positions[i] + 1,
        positions[i] + 1 < (visible_rows(positions, ratio)[i] + 1) * ratio,
{
    let n = completed_blocks(positions[i], ratio);
    let r = ratio as int;
    lemma_completed_blocks(positions[i], ratio);
    if r > 1 {
        assert(n * 2 <= n * r) by (nonlinear_arith)
            requires
                n >= 0,
                r >= 2,
        ;
    }
}

proof fn lemma_completed_blocks(pos: i32, ratio: u32)
    requires
        ratio > 0,
        pos >= 0,
    ensures
        0 <= completed_blocks(pos, ratio) <= pos + 1,
        completed_blocks(pos, ratio) * ratio <= pos + 1 < (completed_blocks(pos, ratio) + 1) * ratio,
{
    let n = completed_blocks(pos, ratio);
    let r = ratio as int;
    lemma_fundamental_div_mod(pos + 1, r);
    lemma_mod_bound(pos + 1, r);
    lemma_div_pos_is_pos(pos + 1, r);
    assert(n * r == r * n && (n + 1) * r == r * n + r) by (nonlinear_arith);
    assert(n <= n * r) by (nonlinear_arith)
        requires
            n >= 0,
            r >= 1,
    ;
}

/// Padding sees no compressed row, and there is one entry per token.
pub proof fn law_visible_rows_dense(positions: Seq<i32>, ratio: u32)
    ensures
        visible_rows(positions, ratio).len() == positions.len(),
        forall|i: int|
            0 <= i < positions.len() && positions[i] < 0 ==> #[trigger] visible_rows(
                positions,
                ratio,
            )[i] == 0,
{
}

proof fn lemma_most_completed(positions: Seq<i32>, ratio: u32)
    requires
        ratio > 0,
    ensures
        most_completed(positions, ratio) >= 0,
        forall|i: int|
            0 <= i < positions.len() && positions[i] >= 0 ==> completed_blocks(
                #[trigger] positions[i],
                ratio,
            ) <= most_completed(positions, ratio),
        most_completed(positions, ratio) > 0 ==> exists|i: int|
            0 <= i < positions.len() && positions[i] >= 0 && completed_blocks(
                #[trigger] positions[i],
                ratio,
            ) == most_completed(positions, ratio),
    decreases positions.len(),
{
    if positions.len() > 0 {
        let rest = positions.drop_last();
        lemma_most_completed(rest, ratio);
        if most_completed(positions, ratio) > 0 {
            if most_completed(positions, ratio) == most_completed(rest, ratio) {
                let i = choose|i: int|
                    0 <= i < rest.len() && rest[i] >= 0 && completed_blocks(
                        #[trigger] rest[i],
                        ratio,
                    ) == most_completed(rest, ratio);
                assert(positions[i] == rest[i]);
            } else {
                assert(completed_blocks(positions[positions.len() - 1], ratio) == most_completed(
                    positions,
                    ratio,
                ));
            }
        }
        assert forall|i: int| 0 <= i < positions.len() && positions[i] >= 0 implies completed_blocks(
            #[trigger] positions[i],
            ratio,
        ) <= most_completed(positions, ratio) by {
            if i < rest.len() {
                assert(rest[i] == positions[i]);
            }
        }
    }
}

/// The graph width is a multiple of the padding, holds every visible row, and is no wider than it
/// must be.
pub proof fn law_width(positions: Seq<i32>, ratio: u32)
    requires
        ratio > 0,
    ensures
        ({
            let width = padded_width(most_completed(positions, ratio));
            &&& width % DSV4_N_KV_PAD as int == 0
            &&& forall|i: int|
                0 <= i < positions.len() && positions[i] >= 0 ==> completed_blocks(
                    #[trigger] positions[i],
                    ratio,
                ) <= width
            &&& width > 0 ==> exists|i: int|
                0 <= i < positions.len() && positions[i] >= 0 && completed_blocks(
                    #[trigger] positions[i],
                    ratio,
                ) > width - DSV4_N_KV_PAD
        }),
{
    lemma_most_completed(positions, ratio);
    let most = most_completed(positions, ratio);
    let width = padded_width(most);
    assert(most <= width < most + 256 && width % 256 == 0);
}

/// The graph has no compressed half exactly where no token has completed a block.
pub proof fn law_no_compressed_half(positions: Seq<i32>, ratio: u32)
    requires
        ratio > 0,
    ensures
        padded_width(most_completed(positions, ratio)) == 0 <==> forall|i: int|
            0 <= i < positions.len() && #[trigger] positions[i] >= 0 ==> positions[i] + 1 < ratio,
{
    lemma_most_completed(positions, ratio);
    assert forall|i: int| 0 <= i < positions.len() && #[trigger] positions[i] >= 0 implies (
    completed_blocks(positions[i], ratio) == 0 <==> positions[i] + 1 < ratio) by {
        let n = completed_blocks(positions[i], ratio);
        let r = ratio as int;
        lemma_completed_blocks(positions[i], ratio);
        if n > 0 {
            assert(n * r >= r) by (nonlinear_arith)
                requires
                    n >= 1,
                    r >= 1,
            ;
        } else {
            assert((n + 1) * r == r) by (nonlinear_arith)
                requires
                    n == 0,
            ;
        }
    }
}

/// The row within the block is one per token that is not padding, and below the ratio.
pub proof fn law_rows_in_block(positions: Seq<i32>, ratio: u32)
    requires
        ratio > 0,
    ensures
        rows_in_block(positions, ratio).len() == valid_positions(positions).len(),
        forall|k: int|
            0 <= k < rows_in_block(positions, ratio).len() ==> 0 <= #[trigger] rows_in_block(
                positions,
                ratio,
            )[k] < ratio,
{
    assert forall|k: int| 0 <= k < rows_in_block(positions, ratio).len() implies 0
        <= #[trigger] rows_in_block(positions, ratio)[k] < ratio by {
        let pos = valid_positions(positions)[k];
        positions.lemma_filter_pred(|pos: i32| pos >= 0, k);
        lemma_mod_decreases(pos as nat, ratio as nat);
        lemma_mod_bound(pos as int, ratio as int);
    }
}

/// A ubatch may be split anywhere: what its tokens see and which blocks they complete, token by
/// token, does not depend on the split.
pub proof fn law_split(head: Seq<i32>, tail: Seq<i32>, ratio: u32)
    ensures
        visible_rows(head + tail, ratio) == visible_rows(head, ratio) + visible_rows(tail, ratio),
        rows_in_block(head + tail, ratio) == rows_in_block(head, ratio) + rows_in_block(
            tail,
            ratio,
        ),
        block_ends(head + tail, ratio) == block_ends(head, ratio) + block_ends(tail, ratio),
{
    Seq::filter_distributes_over_add(head, tail, |pos: i32| pos >= 0);
    Seq::filter_distributes_over_add(head, tail, |pos: i32| ends_block(pos, ratio));
    assert(visible_rows(head + tail, ratio) =~= visible_rows(head, ratio) + visible_rows(
        tail,
        ratio,
    ));
    assert(rows_in_block(head + tail, ratio) =~= rows_in_block(head, ratio) + rows_in_block(
        tail,
        ratio,
    ));
}

/// Each commit writes one cache row, has one rope position, and reads `ratio` rows per window.
pub proof fn law_commit_counts(
    positions: Seq<i32>,
    ratio: u32,
    overlap: bool,
    state_size: u32,
    kv_size: u32,
)
    ensures
        rope_positions(positions, ratio).len() == cache_rows(positions, ratio, kv_size).len(),
        state_reads(positions, ratio, overlap, state_size).len() == cache_rows(
            positions,
            ratio,
            kv_size,
        ).len() * ratio * (if overlap {
            2int
        } else {
            1int
        }),
{
    let n = block_ends(positions, ratio).len();
    let r = ratio as nat;
    assert(n * r + n * r == n * r * 2 && n * r == n * r * 1) by (nonlinear_arith);
    assert(1 * r * 2 == 2 * r && 1 * r * 1 == r) by (nonlinear_arith);
}

/// A CSA ubatch with some token always commits, and with exactly one dummy where it completes no
/// block.
pub proof fn law_csa_always_commits(positions: Seq<i32>, kv_size: u32)
    requires
        valid_positions(positions).len() > 0,
    ensures
        cache_rows(positions, DSV4_CSA_RATIO, kv_size).len() == if block_ends(
            positions,
            DSV4_CSA_RATIO,
        ).len() == 0 {
            1
        } else {
            block_ends(positions, DSV4_CSA_RATIO).len()
        },
{
}

/// At any other ratio commits appear and disappear with the blocks: there is no dummy.
pub proof fn law_other_ratios_have_no_dummy(positions: Seq<i32>, ratio: u32, kv_size: u32)
    requires
        ratio != DSV4_CSA_RATIO,
    ensures
        cache_rows(positions, ratio, kv_size).len() == block_ends(positions, ratio).len(),
{
}

/// The graph of a one-token CSA step has the same shape on and off a block boundary: one commit,
/// with a fixed number of reads.
pub proof fn law_csa_decode_shape(pos: i32, overlap: bool, state_size: u32, kv_size: u32)
    requires
        pos >= 0,
    ensures
        cache_rows(seq![pos], DSV4_CSA_RATIO, kv_size).len() == 1,
        rope_positions(seq![pos], DSV4_CSA_RATIO).len() == 1,
        state_reads(seq![pos], DSV4_CSA_RATIO, overlap, state_size).len() == if overlap {
            2 * DSV4_CSA_RATIO
        } else {
            DSV4_CSA_RATIO as int
        },
{
    reveal_with_fuel(Seq::filter, 2);
    let positions = seq![pos];
    assert(positions.drop_last() =~= Seq::<i32>::empty());
    law_commit_counts(positions, DSV4_CSA_RATIO, overlap, state_size, kv_size);
}

/// A commit is roped at the first position of the block whose cache row it writes, and that row is
/// the last of those visible to the token that completes the block.
pub proof fn law_commit_row(positions: Seq<i32>, ratio: u32, kv_size: u32, b: int)
    requires
        ratio > 0,
        0 <= b < block_ends(positions, ratio).len(),
    ensures
        rope_positions(positions, ratio)[b] == cache_rows(positions, ratio, kv_size)[b] * ratio,
        cache_rows(positions, ratio, kv_size)[b] == completed_blocks(
            block_ends(positions, ratio)[b],
            ratio,
        ) - 1,
{
    let pos = block_ends(positions, ratio)[b];
    positions.lemma_filter_pred(|pos: i32| ends_block(pos, ratio), b);
    lemma_block_end(pos, ratio);
}

/// At a block end the positions of the block are those of its cache row.
pub proof fn lemma_block_end(pos: i32, ratio: u32)
    requires
        ratio > 0,
        ends_block(pos, ratio),
    ensures
        ({
            let row = pos as int / ratio as int;
            &&& row == completed_blocks(pos, ratio) - 1
            &&& row * ratio == pos + 1 - ratio
            &&& 0 <= row <= pos
        }),
{
    let r = ratio as int;
    let n = completed_blocks(pos, ratio);
    lemma_fundamental_div_mod(pos + 1, r);
    lemma_completed_blocks(pos, ratio);
    assert(n >= 1) by (nonlinear_arith)
        requires
            pos + 1 == r * n,
            pos + 1 >= 1,
            r >= 1,
    ;
    assert((n - 1) * r == r * n - r && (n - 1) * r >= 0) by (nonlinear_arith)
        requires
            n >= 1,
            r >= 1,
    ;
    lemma_fundamental_div_mod_converse(pos as int, r, n - 1, r - 1);
}

/// The dummy's cache row is masked: no token sees it, as long as the cache has more rows than any
/// token sees.
pub proof fn law_dummy_is_masked(positions: Seq<i32>, ratio: u32, kv_size: u32, i: int)
    requires
        needs_dummy(positions, ratio),
        0 < kv_size <= i32::MAX,
        0 <= i < positions.len(),
        visible_rows(positions, ratio)[i] < kv_size,
    ensures
        cache_rows(positions, ratio, kv_size).len() == 1,
        visible_rows(positions, ratio)[i] <= cache_rows(positions, ratio, kv_size)[0],
{
}

/// The row that entry `k` of a window list reads.
proof fn lemma_window_reads_index(
    blocks: Seq<i32>,
    earlier: int,
    positions: Seq<i32>,
    ratio: u32,
    state_size: u32,
    b: int,
    j: int,
)
    requires
        0 <= b < blocks.len(),
        0 <= j < ratio,
    ensures
        0 <= b * ratio + j < blocks.len() * ratio,
        window_reads(blocks, earlier, positions, ratio, state_size)[b * ratio + j] == source_row(
            positions,
            state_size,
            blocks[b] + 1 - ratio - earlier + j,
        ),
{
    let r = ratio as int;
    let n = blocks.len() as int;
    lemma_fundamental_div_mod_converse(b * r + j, r, b, j);
    assert(0 <= b * r + j < n * r) by (nonlinear_arith)
        requires
            0 <= b < n,
            0 <= j < r,
    ;
}

/// The reads of an overlapping compressor are two contiguous halves, the previous windows of all
/// blocks and then the blocks' own; those of one that does not overlap are the blocks' own.
pub proof fn law_read_layout(
    positions: Seq<i32>,
    ratio: u32,
    overlap: bool,
    state_size: u32,
    b: int,
    j: int,
)
    requires
        0 <= b < block_ends(positions, ratio).len(),
        0 <= j < ratio,
    ensures
        ({
            let blocks = block_ends(positions, ratio);
            let reads = state_reads(positions, ratio, overlap, state_size);
            let start = blocks[b] + 1 - ratio;
            let half = blocks.len() * ratio;
            &&& overlap ==> reads[b * ratio + j] == source_row(
                positions,
                state_size,
                start - ratio + j,
            )
            &&& overlap ==> reads[half + b * ratio + j] == source_row(
                positions,
                state_size,
                start + j,
            )
            &&& !overlap ==> reads[b * ratio + j] == source_row(positions, state_size, start + j)
        }),
{
    let blocks = block_ends(positions, ratio);
    lemma_window_reads_index(blocks, 0, positions, ratio, state_size, b, j);
    lemma_window_reads_index(blocks, ratio as int, positions, ratio, state_size, b, j);
}

/// The previous window of the first block lies before the start of the sequence: it reads the
/// sentinel throughout.
pub proof fn law_first_block_reads_sentinel(
    positions: Seq<i32>,
    ratio: u32,
    state_size: u32,
    b: int,
    j: int,
)
    requires
        0 <= b < block_ends(positions, ratio).len(),
        block_ends(positions, ratio)[b] == ratio - 1,
        0 <= j < ratio,
    ensures
        state_reads(positions, ratio, true, state_size)[b * ratio + j] == (state_size
            + positions.len()) as i32,
{
    law_read_layout(positions, ratio, true, state_size, b, j);
}

/// The last token at a position is at that position, and none after it is.
pub proof fn law_last_token_at(positions: Seq<i32>, pos: int)
    ensures
        match last_token_at(positions, pos) {
            Some(token) => 0 <= token < positions.len() && positions[token] == pos && forall|i: int|
                token < i < positions.len() ==> positions[i] != pos,
            None => forall|i: int| 0 <= i < positions.len() ==> positions[i] != pos,
        },
    decreases positions.len(),
{
    if positions.len() > 0 && positions.last() != pos {
        let rest = positions.drop_last();
        law_last_token_at(rest, pos);
        assert(forall|i: int| 0 <= i < rest.len() ==> rest[i] == positions[i]);
    }
}

/// Every row a plan reads lies in the addressed layout: a ring row, the scratch row of a token, or
/// the sentinel.
pub proof fn law_reads_in_range(
    positions: Seq<i32>,
    ratio: u32,
    overlap: bool,
    state_size: u32,
    k: int,
)
    requires
        state_size > 0,
        state_size + positions.len() <= i32::MAX,
        0 <= k < state_reads(positions, ratio, overlap, state_size).len(),
    ensures
        0 <= state_reads(positions, ratio, overlap, state_size)[k] <= state_size + positions.len(),
{
    assert forall|pos: int| 0 <= #[trigger] source_row(positions, state_size, pos) <= state_size
        + positions.len() by {
        law_last_token_at(positions, pos);
        lemma_mod_bound(pos, state_size as int);
    }
}

/// Each ring row is written once, in ascending order; each row written is in the ring and gets the
/// state of the first token at the highest position that belongs to it.
pub proof fn law_persisted_rows(
    src: Seq<i32>,
    dst: Seq<i32>,
    positions: Seq<i32>,
    state_size: u32,
    k: int,
)
    requires
        state_size > 0,
        positions.len() <= i32::MAX,
        persists(src, dst, positions, state_size),
        0 <= k < dst.len(),
    ensures
        0 <= dst[k] < state_size,
        0 <= src[k] < positions.len(),
        keeps(positions, state_size, dst[k] as int, src[k] as int),
{
    assert(dst.contains(dst[k]));
    lemma_kept_exists(positions, state_size, dst[k] as int);
    let kept = kept_token(positions, state_size, dst[k] as int);
    assert(src[k] == kept as i32);
    lemma_mod_bound(positions[kept] as int, state_size as int);
}

/// No state is lost: the ring row of every token that is not padding is written.
pub proof fn law_every_token_persists(
    src: Seq<i32>,
    dst: Seq<i32>,
    positions: Seq<i32>,
    state_size: u32,
    i: int,
)
    requires
        state_size > 0,
        persists(src, dst, positions, state_size),
        0 <= i < positions.len(),
        positions[i] >= 0,
    ensures
        dst.contains((positions[i] as int % state_size as int) as i32),
{
    let row = positions[i] as int % state_size as int;
    lemma_mod_decreases(positions[i] as nat, state_size as nat);
    lemma_mod_bound(positions[i] as int, state_size as int);
    assert(lands_on(positions, state_size, row, i));
    assert(touched(positions, state_size, (row as i32) as int));
}

/// A token that meets the definition of the kept one is the kept one.
pub proof fn law_kept_token(positions: Seq<i32>, state_size: u32, row: int, i: int)
    requires
        keeps(positions, state_size, row, i),
    ensures
        kept_token(positions, state_size, row) == i,
{
    lemma_keeps_unique(
        positions,
        state_size,
        row,
        i,
        kept_token(positions, state_size, row),
    );
}

/// The entries rise.
pub open spec fn ascending(s: Seq<i32>) -> bool {
    forall|k: int, l: int| 0 <= k < l < s.len() ==> s[k] < s[l]
}

/// Two ascending lists with the same entries are the same list.
pub proof fn lemma_ascending_unique(s: Seq<i32>, t: Seq<i32>)
    requires
        ascending(s),
        ascending(t),
        forall|row: i32| #[trigger] s.contains(row) <==> t.contains(row),
    ensures
        s == t,
    decreases s.len(),
{
    if s.len() == 0 {
        if t.len() > 0 {
            assert(t.contains(t[0]));
            assert(s.contains(t[0]));
        }
        assert(s =~= t);
    } else {
        assert(s.contains(s.last()));
        assert(t.contains(s.last()));
        assert(t.contains(t.last()));
        assert(s.contains(t.last()));
        assert(s.last() == t.last());
        let s0 = s.drop_last();
        let t0 = t.drop_last();
        assert forall|row: i32| #[trigger] s0.contains(row) <==> t0.contains(row) by {
            if s0.contains(row) {
                let k = choose|k: int| 0 <= k < s0.len() && s0[k] == row;
                assert(s[k] == row);
                assert(s.contains(row));
                let l = choose|l: int| 0 <= l < t.len() && t[l] == row;
                assert(t0[l] == row);
            }
            if t0.contains(row) {
                let k = choose|k: int| 0 <= k < t0.len() && t0[k] == row;
                assert(t[k] == row);
                assert(t.contains(row));
                assert(s.contains(row));
                let l = choose|l: int| 0 <= l < s.len() && s[l] == row;
                assert(s0[l] == row);
            }
        }
        lemma_ascending_unique(s0, t0);
        assert(s =~= s0.push(s.last()));
        assert(t =~= t0.push(t.last()));
    }
}

/// The plan of a ubatch is determined by the ubatch and the compressor: two plans for the same
/// agree in every entry.
pub proof fn law_plan_is_determined(
    p: Dsv4CompPlan,
    q: Dsv4CompPlan,
    positions: Seq<i32>,
    ratio: u32,
    overlap: bool,
    state_size: u32,
    kv_size: u32,
)
    requires
        p.is_for(positions, ratio, overlap, state_size, kv_size),
        q.is_for(positions, ratio, overlap, state_size, kv_size),
    ensures
        p.n_visible@ == q.n_visible@,
        p.n_kv == q.n_kv,
        p.state_pos@ == q.state_pos@,
        p.state_read_idxs@ == q.state_read_idxs@,
        p.state_write_idxs@ == q.state_write_idxs@,
        p.state_write_pos@ == q.state_write_pos@,
        p.state_persist_src_idxs@ == q.state_persist_src_idxs@,
        p.state_persist_dst_idxs@ == q.state_persist_dst_idxs@,
{
    lemma_ascending_unique(p.state_persist_dst_idxs@, q.state_persist_dst_idxs@);
    assert(p.state_persist_src_idxs@ =~= q.state_persist_src_idxs@);
}

/// Overlap changes the reads alone, and adds to them: the plan of an overlapping compressor reads
/// as many rows again first, and then what the plan without overlap reads.
pub proof fn law_overlap_adds_reads(
    plain: Dsv4CompPlan,
    overlapping: Dsv4CompPlan,
    positions: Seq<i32>,
    ratio: u32,
    state_size: u32,
    kv_size: u32,
)
    requires
        plain.is_for(positions, ratio, false, state_size, kv_size),
        overlapping.is_for(positions, ratio, true, state_size, kv_size),
    ensures
        overlapping.state_read_idxs@.len() == 2 * plain.state_read_idxs@.len(),
        overlapping.state_read_idxs@.skip(plain.state_read_idxs@.len() as int)
            == plain.state_read_idxs@,
        overlapping.n_visible@ == plain.n_visible@,
        overlapping.n_kv == plain.n_kv,
        overlapping.state_pos@ == plain.state_pos@,
        overlapping.state_write_idxs@ == plain.state_write_idxs@,
        overlapping.state_write_pos@ == plain.state_write_pos@,
        overlapping.state_persist_src_idxs@ == plain.state_persist_src_idxs@,
        overlapping.state_persist_dst_idxs@ == plain.state_persist_dst_idxs@,
{
    lemma_ascending_unique(
        overlapping.state_persist_dst_idxs@,
        plain.state_persist_dst_idxs@,
    );
    assert(overlapping.state_persist_src_idxs@ =~= plain.state_persist_src_idxs@);
    assert(overlapping.state_read_idxs@.skip(plain.state_read_idxs@.len() as int)
        =~= plain.state_read_idxs@);
}

} // verus!
