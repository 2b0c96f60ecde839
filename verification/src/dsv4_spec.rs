//! What a compressor plan of DeepSeek V4 holds, as functions of the ubatch.
//!
//! A compressor pools `ratio` consecutive positions into one row of a compressed cache. The state
//! it needs of past positions lives in a ring of `state_size` rows, one position per row, position
//! `pos` at row `pos % state_size`. A ubatch is a sequence of token positions; a negative entry is
//! a padding slot. Token `i` of the ubatch also has a scratch row of its own, so that the rows a
//! plan addresses are laid out `[ring | scratch rows of the ubatch | sentinel]`.
//!
//! A plan carries rows, tokens and positions as `i32`. The casts below are exact as long as the
//! number of addressed rows fits, and truncate like the plan's own entries where it does not.

use crate::dsv4_plan::{DSV4_CSA_RATIO, DSV4_N_KV_PAD};
use vstd::prelude::*;

verus! {

/// The positions of the tokens that are not padding, in ubatch order.
pub open spec fn valid_positions(positions: Seq<i32>) -> Seq<i32> {
    positions.filter(|pos: i32| pos >= 0)
}

/// Number of completed blocks at `pos`: the floor, so a trailing partial block does not count.
pub open spec fn completed_blocks(pos: i32, ratio: u32) -> int {
    (pos + 1) / (ratio as int)
}

/// Does the token at `pos` complete a block?
pub open spec fn ends_block(pos: i32, ratio: u32) -> bool {
    pos >= 0 && (pos + 1) % (ratio as int) == 0
}

/// The positions at which the ubatch completes a block, in ubatch order.
pub open spec fn block_ends(positions: Seq<i32>, ratio: u32) -> Seq<i32> {
    positions.filter(|pos: i32| ends_block(pos, ratio))
}

/// The number of completed compressed rows each token sees, in ubatch order; padding sees none.
pub open spec fn visible_rows(positions: Seq<i32>, ratio: u32) -> Seq<i32> {
    positions.map_values(
        |pos: i32|
            if pos < 0 {
                0i32
            } else {
                completed_blocks(pos, ratio) as i32
            },
    )
}

/// The largest number of completed blocks at any token; zero where there is none.
pub open spec fn most_completed(positions: Seq<i32>, ratio: u32) -> int
    decreases positions.len(),
{
    if positions.len() == 0 {
        0
    } else {
        let rest = most_completed(positions.drop_last(), ratio);
        let pos = positions.last();
        if pos >= 0 && completed_blocks(pos, ratio) > rest {
            completed_blocks(pos, ratio)
        } else {
            rest
        }
    }
}

/// `rows` rounded up to a multiple of [`DSV4_N_KV_PAD`].
pub open spec fn padded_width(rows: int) -> int {
    (rows + DSV4_N_KV_PAD - 1) / (DSV4_N_KV_PAD as int) * DSV4_N_KV_PAD
}

/// The row within its block of each token that is not padding, in ubatch order.
pub open spec fn rows_in_block(positions: Seq<i32>, ratio: u32) -> Seq<i32> {
    valid_positions(positions).map_values(|pos: i32| (pos as int % ratio as int) as i32)
}

/// The last token of the ubatch at position `pos`.
pub open spec fn last_token_at(positions: Seq<i32>, pos: int) -> Option<int>
    decreases positions.len(),
{
    if positions.len() == 0 {
        None
    } else if positions.last() == pos {
        Some(positions.len() - 1)
    } else {
        last_token_at(positions.drop_last(), pos)
    }
}

/// The row that holds the compressor state of position `pos`: the sentinel before the start of the
/// sequence, the token's own scratch row where the ubatch produces the position, and the ring row
/// otherwise.
pub open spec fn source_row(positions: Seq<i32>, state_size: u32, pos: int) -> i32 {
    if pos < 0 {
        (state_size + positions.len()) as i32
    } else {
        match last_token_at(positions, pos) {
            Some(token) => (state_size + token) as i32,
            None => (pos % state_size as int) as i32,
        }
    }
}

/// The source rows of the `ratio` positions from `start` on.
pub open spec fn window(positions: Seq<i32>, ratio: u32, state_size: u32, start: int) -> Seq<i32> {
    Seq::new(ratio as nat, |j: int| source_row(positions, state_size, start + j))
}

/// The source rows of one `ratio`-sized window per block, block after block. The window of a block
/// that ends at `pos` begins at position `pos + 1 - ratio - earlier`.
pub open spec fn window_reads(
    blocks: Seq<i32>,
    earlier: int,
    positions: Seq<i32>,
    ratio: u32,
    state_size: u32,
) -> Seq<i32> {
    Seq::new(
        blocks.len() * (ratio as nat),
        |k: int|
            source_row(
                positions,
                state_size,
                blocks[k / (ratio as int)] + 1 - ratio - earlier + k % (ratio as int),
            ),
    )
}

/// A CSA ubatch with some token, but no completed block, gets one dummy commit.
pub open spec fn needs_dummy(positions: Seq<i32>, ratio: u32) -> bool {
    &&& ratio == DSV4_CSA_RATIO
    &&& block_ends(positions, ratio).len() == 0
    &&& valid_positions(positions).len() > 0
}

/// The source rows of all commits. An overlapping compressor pools the window before the block
/// too: the windows before come first, for all blocks, then the blocks' own. The dummy repeats the
/// row of the first token that is not padding.
pub open spec fn state_reads(
    positions: Seq<i32>,
    ratio: u32,
    overlap: bool,
    state_size: u32,
) -> Seq<i32> {
    if needs_dummy(positions, ratio) {
        let row = source_row(positions, state_size, valid_positions(positions)[0] as int);
        let len: nat = if overlap {
            2 * ratio as nat
        } else {
            ratio as nat
        };
        Seq::new(len, |k: int| row)
    } else {
        let blocks = block_ends(positions, ratio);
        let own = window_reads(blocks, 0, positions, ratio, state_size);
        if overlap {
            window_reads(blocks, ratio as int, positions, ratio, state_size) + own
        } else {
            own
        }
    }
}

/// The compressed-cache rows written: row `pos / ratio` for a block that ends at `pos`, the last
/// row of the cache for the dummy.
pub open spec fn cache_rows(positions: Seq<i32>, ratio: u32, kv_size: u32) -> Seq<i32> {
    if needs_dummy(positions, ratio) {
        seq![(kv_size - 1) as i32]
    } else {
        block_ends(positions, ratio).map_values(|pos: i32| (pos as int / ratio as int) as i32)
    }
}

/// The position each commit is roped at: the first of its block, zero for the dummy.
pub open spec fn rope_positions(positions: Seq<i32>, ratio: u32) -> Seq<i32> {
    if needs_dummy(positions, ratio) {
        seq![0i32]
    } else {
        block_ends(positions, ratio).map_values(|pos: i32| (pos + 1 - ratio) as i32)
    }
}

/// Token `i` is not padding and its position has ring row `row`.
pub open spec fn lands_on(positions: Seq<i32>, state_size: u32, row: int, i: int) -> bool {
    &&& 0 <= i < positions.len()
    &&& positions[i] >= 0
    &&& positions[i] as int % state_size as int == row
}

/// Some token has ring row `row`.
pub open spec fn touched(positions: Seq<i32>, state_size: u32, row: int) -> bool {
    exists|i: int| lands_on(positions, state_size, row, i)
}

/// Token `i` is the one whose state ring row `row` keeps: the highest position that lands on the
/// row, and the first token at that position.
pub open spec fn keeps(positions: Seq<i32>, state_size: u32, row: int, i: int) -> bool {
    &&& lands_on(positions, state_size, row, i)
    &&& forall|j: int| #[trigger]
        lands_on(positions, state_size, row, j) ==> positions[j] < positions[i] || (positions[j]
            == positions[i] && i <= j)
}

/// The token whose state ring row `row` keeps.
pub open spec fn kept_token(positions: Seq<i32>, state_size: u32, row: int) -> int {
    choose|i: int| keeps(positions, state_size, row, i)
}

/// `dst` lists the ring rows the ubatch touches, each once and in ascending order, and `src` the
/// token that each keeps.
pub open spec fn persists(
    src: Seq<i32>,
    dst: Seq<i32>,
    positions: Seq<i32>,
    state_size: u32,
) -> bool {
    &&& src.len() == dst.len()
    &&& forall|k: int, l: int| 0 <= k < l < dst.len() ==> dst[k] < dst[l]
    &&& forall|row: i32| #[trigger]
        dst.contains(row) <==> touched(positions, state_size, row as int)
    &&& forall|k: int|
        0 <= k < dst.len() ==> #[trigger] src[k] == kept_token(
            positions,
            state_size,
            dst[k] as int,
        ) as i32
}

} // verus!
