//! The persistent-state ring across ubatches: what each plan reads from it is what the plans before
//! have left there.
//!
//! A ring is modelled by the position whose state each row holds.

use crate::dsv4_laws::{law_last_token_at, law_persisted_rows, law_read_layout};
use crate::dsv4_spec::{
    block_ends, ends_block, lands_on, last_token_at, persists, source_row, state_reads, touched,
};
use vstd::arithmetic::div_mod::{
    lemma_fundamental_div_mod, lemma_mod_add_multiples_vanish, lemma_mod_bound,
    lemma_mod_decreases, lemma_small_mod,
};
use vstd::prelude::*;

verus! {

/// After positions `0..end` of the sequence, each ring row holds the state of the latest position
/// that belongs to it, and a row that no position belongs to yet holds nothing.
pub open spec fn ring_is_current(ring: Map<int, int>, state_size: u32, end: int) -> bool {
    forall|row: int|
        0 <= row < state_size ==> {
            &&& #[trigger] ring.contains_key(row) <==> row < end
            &&& row < end ==> {
                &&& 0 <= ring[row] < end
                &&& ring[row] % state_size as int == row
                &&& end <= ring[row] + state_size
            }
        }
}

/// The tokens of the ubatch that are not padding are at the positions `start..end`, every one of
/// them taken, in any order.
pub open spec fn covers(positions: Seq<i32>, start: int, end: int) -> bool {
    &&& forall|i: int|
        0 <= i < positions.len() && #[trigger] positions[i] >= 0 ==> start <= positions[i] < end
    &&& forall|pos: int| start <= pos < end ==> #[trigger] last_token_at(positions, pos) is Some
}

/// The ring once the rows `dst` hold the state of the tokens `src`.
pub open spec fn ring_after(
    ring: Map<int, int>,
    src: Seq<i32>,
    dst: Seq<i32>,
    positions: Seq<i32>,
) -> Map<int, int> {
    Map::new(
        |row: int| ring.contains_key(row) || exists|k: int| 0 <= k < dst.len() && dst[k] == row,
        |row: int|
            if exists|k: int| 0 <= k < dst.len() && dst[k] == row {
                let k = choose|k: int| 0 <= k < dst.len() && dst[k] == row;
                positions[src[k] as int] as int
            } else {
                ring[row]
            },
    )
}

/// The position whose state a source row gives: that of the ring row, that of the token, or none
/// for the sentinel.
pub open spec fn state_at(
    ring: Map<int, int>,
    positions: Seq<i32>,
    state_size: u32,
    row: int,
) -> Option<int> {
    if row < state_size {
        Some(ring[row])
    } else if row < state_size + positions.len() {
        Some(positions[row - state_size] as int)
    } else {
        None
    }
}

/// Two numbers less than `m` apart with the same remainder are the same.
proof fn lemma_same_residue(a: int, b: int, m: int)
    requires
        m > 0,
        a % m == b % m,
        -m < a - b < m,
    ensures
        a == b,
{
    lemma_fundamental_div_mod(a, m);
    lemma_fundamental_div_mod(b, m);
    let p = a / m;
    let q = b / m;
    assert(p == q) by (nonlinear_arith)
        requires
            a - b == m * p - m * q,
            -m < a - b < m,
            m > 0,
    ;
}

/// A ring that nothing was written to is current at the start of a sequence.
pub proof fn law_empty_ring_is_current(state_size: u32)
    ensures
        ring_is_current(Map::empty(), state_size, 0),
{
}

/// A token at `pos` touches the row of `pos`.
proof fn lemma_covered_is_touched(
    positions: Seq<i32>,
    state_size: u32,
    start: int,
    end: int,
    pos: int,
)
    requires
        state_size > 0,
        covers(positions, start, end),
        0 <= start <= pos < end,
    ensures
        exists|i: int|
            lands_on(positions, state_size, pos % state_size as int, i) && positions[i] == pos,
{
    law_last_token_at(positions, pos);
    let i = last_token_at(positions, pos)->Some_0;
    assert(lands_on(positions, state_size, pos % state_size as int, i));
}

/// Writing what a plan persists keeps the ring current: from positions `0..start` to `0..end`, for
/// a ubatch that covers `start..end`.
pub proof fn law_persist_keeps_ring_current(
    ring: Map<int, int>,
    src: Seq<i32>,
    dst: Seq<i32>,
    positions: Seq<i32>,
    state_size: u32,
    start: int,
    end: int,
)
    requires
        state_size > 0,
        positions.len() <= i32::MAX,
        0 <= start <= end,
        covers(positions, start, end),
        ring_is_current(ring, state_size, start),
        persists(src, dst, positions, state_size),
    ensures
        ring_is_current(ring_after(ring, src, dst, positions), state_size, end),
{
    let m = state_size as int;
    let after = ring_after(ring, src, dst, positions);
    assert forall|row: int| 0 <= row < state_size implies {
        &&& #[trigger] after.contains_key(row) <==> row < end
        &&& row < end ==> {
            &&& 0 <= after[row] < end
            &&& after[row] % m == row
            &&& end <= after[row] + state_size
        }
    } by {
        if exists|k: int| 0 <= k < dst.len() && dst[k] == row {
            let k = choose|k: int| 0 <= k < dst.len() && dst[k] == row;
            law_persisted_rows(src, dst, positions, state_size, k);
            let pos = positions[src[k] as int] as int;
            assert(after[row] == pos);
            assert(lands_on(positions, state_size, row, src[k] as int));
            lemma_mod_decreases(pos as nat, m as nat);
            if pos + m < end {
                lemma_mod_add_multiples_vanish(pos, m);
                lemma_covered_is_touched(positions, state_size, start, end, pos + m);
                let i = choose|i: int|
                    lands_on(positions, state_size, (pos + m) % m, i) && positions[i] == pos + m;
                assert(lands_on(positions, state_size, row, i));
            }
        } else {
            assert(!touched(positions, state_size, row)) by {
                if touched(positions, state_size, row) {
                    let i = choose|i: int| lands_on(positions, state_size, row, i);
                    lemma_mod_decreases(positions[i] as nat, m as nat);
                    assert(touched(positions, state_size, (row as i32) as int));
                    assert(dst.contains(row as i32));
                    let k = choose|k: int| 0 <= k < dst.len() && dst[k] == row as i32;
                    assert(dst[k] == row);
                }
            }
            assert(after.contains_key(row) <==> ring.contains_key(row));
            if start <= row < end {
                lemma_small_mod(row as nat, m as nat);
                lemma_covered_is_touched(positions, state_size, start, end, row);
            }
            if row < start {
                let pos = ring[row];
                assert(ring.contains_key(row));
                assert(after[row] == pos);
                if pos + m < end {
                    lemma_mod_add_multiples_vanish(pos, m);
                    lemma_covered_is_touched(positions, state_size, start, end, pos + m);
                }
            }
        }
    }
}

/// A source row gives the state of the very position it stands for, or the sentinel where the
/// position lies before the sequence.
proof fn lemma_source_row_gives_its_position(
    ring: Map<int, int>,
    positions: Seq<i32>,
    state_size: u32,
    start: int,
    end: int,
    pos: int,
)
    requires
        state_size > 0,
        state_size + positions.len() <= i32::MAX,
        0 <= start <= end,
        covers(positions, start, end),
        ring_is_current(ring, state_size, start),
        start - state_size <= pos < end,
    ensures
        state_at(ring, positions, state_size, source_row(positions, state_size, pos) as int)
            == if pos < 0 {
            None
        } else {
            Some(pos)
        },
{
    let m = state_size as int;
    law_last_token_at(positions, pos);
    if pos >= 0 && last_token_at(positions, pos) is None {
        assert(pos < start);
        let row = pos % m;
        lemma_mod_bound(pos, m);
        lemma_mod_decreases(pos as nat, m as nat);
        assert(ring.contains_key(row));
        lemma_same_residue(ring[row], pos, m);
    }
}

/// What a plan reads is fresh: where the ring is current for the positions before the ubatch, and
/// has room for what a block pools besides the token that completes it, every read gives the state
/// of the position it stands for, position by position of each block's windows.
pub proof fn law_reads_are_fresh(
    ring: Map<int, int>,
    positions: Seq<i32>,
    ratio: u32,
    overlap: bool,
    state_size: u32,
    start: int,
    end: int,
    b: int,
    j: int,
)
    requires
        state_size > 0,
        state_size + positions.len() <= i32::MAX,
        0 <= start <= end,
        covers(positions, start, end),
        ring_is_current(ring, state_size, start),
        (if overlap {
            2 * ratio
        } else {
            ratio as int
        }) <= state_size + 1,
        0 <= b < block_ends(positions, ratio).len(),
        0 <= j < ratio,
    ensures
        ({
            let blocks = block_ends(positions, ratio);
            let reads = state_reads(positions, ratio, overlap, state_size);
            let pos = blocks[b] + 1 - ratio + j;
            let own = if overlap {
                blocks.len() * ratio
            } else {
                0
            };
            &&& state_at(ring, positions, state_size, reads[own + b * ratio + j] as int) == Some(pos)
            &&& overlap ==> state_at(ring, positions, state_size, reads[b * ratio + j] as int)
                == if pos < ratio {
                None
            } else {
                Some(pos - ratio)
            }
        }),
{
    let end_pos = block_ends(positions, ratio)[b];
    let pos = end_pos + 1 - ratio + j;
    positions.lemma_filter_pred(|pos: i32| ends_block(pos, ratio), b);
    positions.lemma_filter_contains_rev(|pos: i32| ends_block(pos, ratio), end_pos);
    let i = choose|i: int| 0 <= i < positions.len() && positions[i] == end_pos;
    assert(start <= positions[i] < end);
    assert(end_pos + 1 >= ratio) by {
        if end_pos + 1 < ratio {
            lemma_small_mod((end_pos + 1) as nat, ratio as nat);
        }
    }
    law_read_layout(positions, ratio, overlap, state_size, b, j);
    lemma_source_row_gives_its_position(ring, positions, state_size, start, end, pos);
    if overlap {
        lemma_source_row_gives_its_position(ring, positions, state_size, start, end, pos - ratio);
    }
}

} // verus!
