//! The per-ubatch compressor plan of DeepSeek V4: which compressor-state rows a ubatch reads,
//! which cache rows it commits, and which rows of the persistent-state ring it overwrites.
//!
//! The plan serves a single stream with a single sequence. What each of its vectors holds is
//! defined in [`crate::dsv4_spec`].

use crate::dsv4_spec::{
    block_ends, cache_rows, completed_blocks, ends_block, keeps, kept_token, lands_on,
    last_token_at, most_completed, needs_dummy, padded_width, persists, rope_positions,
    rows_in_block, source_row, state_reads, touched, valid_positions, visible_rows, window,
    window_reads,
};
use std::collections::HashMap;
use vstd::prelude::*;

verus! {

/// Ratio at which the CSA compressor pools rows. The only ratio for which a ubatch that completes
/// no block still gets one commit, a dummy.
pub const DSV4_CSA_RATIO: u32 = 4;

/// Ratio at which the HCA compressor pools rows. It never gets the dummy commit.
pub const DSV4_HCA_RATIO: u32 = 128;

/// The graph width is a multiple of this many rows, so that the graph does not change shape at
/// every block boundary.
pub const DSV4_N_KV_PAD: usize = 256;

/// The compressor recipe of one ubatch.
#[derive(Debug, Default, Clone, PartialEq, Eq)]
pub struct Dsv4CompPlan {
    /// Number of completed compressed rows visible to each query token, in ubatch token order.
    /// One entry per token; padding tokens get zero.
    pub n_visible: Vec<i32>,
    /// Graph width of the compressed half of attention: the largest number of visible rows, padded
    /// up to a multiple of [`DSV4_N_KV_PAD`]. Zero where no token has completed a block: then the
    /// graph has no compressed half at all.
    pub n_kv: usize,
    /// `pos % ratio` for each token that is not padding, in ubatch token order.
    pub state_pos: Vec<i32>,
    /// Source rows of the commits, `ratio` per block and window. For an overlapping compressor the
    /// previous windows of all blocks come first, then their current windows.
    pub state_read_idxs: Vec<i32>,
    /// Compressed-cache rows written, one per commit.
    pub state_write_idxs: Vec<i32>,
    /// The position each commit is roped at, the first of its block.
    pub state_write_pos: Vec<i32>,
    /// Token whose state goes to the ring row of the same index in `state_persist_dst_idxs`.
    pub state_persist_src_idxs: Vec<i32>,
    /// Ring rows this ubatch overwrites, each once, in ascending order.
    pub state_persist_dst_idxs: Vec<i32>,
}

impl Dsv4CompPlan {
    /// The plan is the one for the given ubatch and compressor.
    pub open spec fn is_for(
        self,
        positions: Seq<i32>,
        ratio: u32,
        overlap: bool,
        state_size: u32,
        kv_size: u32,
    ) -> bool {
        &&& self.n_visible@ == visible_rows(positions, ratio)
        &&& self.n_kv == padded_width(most_completed(positions, ratio))
        &&& self.state_pos@ == rows_in_block(positions, ratio)
        &&& self.state_read_idxs@ == state_reads(positions, ratio, overlap, state_size)
        &&& self.state_write_idxs@ == cache_rows(positions, ratio, kv_size)
        &&& self.state_write_pos@ == rope_positions(positions, ratio)
        &&& persists(
            self.state_persist_src_idxs@,
            self.state_persist_dst_idxs@,
            positions,
            state_size,
        )
    }
}

/// Why a plan was refused.
#[derive(Clone, Copy, PartialEq, Eq, Structural, Debug)]
pub enum PlanError {
    /// More than one sequence in the ubatch.
    MultipleSequences,
}

impl PlanError {
    /// The text of the refusal.
    pub open spec fn text(self) -> &'static str {
        match self {
            PlanError::MultipleSequences =>
                "DSV4 single compressed stream cannot serve multiple sequences",
        }
    }

    /// The refusal as text.
    pub fn to_string(&self) -> (s: String)
        ensures
            s@ == self.text()@,
    {
        match self {
            PlanError::MultipleSequences =>
                "DSV4 single compressed stream cannot serve multiple sequences".to_string(),
        }
    }
}

/// A ring row to overwrite: the row, the token it keeps, and that token's position.
struct PersistRow {
    dst: i32,
    src: i32,
    pos: i32,
}

impl PersistRow {
    /// The ring row is touched by `positions`, and keeps the token.
    spec fn is_kept(self, positions: Seq<i32>, state_size: u32) -> bool {
        let kept = kept_token(positions, state_size, self.dst as int);
        &&& touched(positions, state_size, self.dst as int)
        &&& self.src == kept as i32
        &&& self.pos == positions[kept]
    }
}

/// The row `offset` rows past `base`.
fn row_id(base: u32, offset: usize) -> (row: i32)
    ensures
        row == (base + offset) as i32,
{
    (base as i128 + offset as i128) as i32
}

/// `rows` rounded up to a multiple of [`DSV4_N_KV_PAD`].
fn pad_width(rows: i64) -> (width: usize)
    requires
        0 <= rows <= 0x8000_0000,
    ensures
        width == padded_width(rows as int),
{
    (rows as usize + DSV4_N_KV_PAD - 1) / DSV4_N_KV_PAD * DSV4_N_KV_PAD
}

/// `map` takes each position of the ubatch to the last token there.
spec fn indexes(map: Map<i32, usize>, positions: Seq<i32>) -> bool {
    &&& forall|pos: i32| #[trigger]
        map.contains_key(pos) <==> pos >= 0 && last_token_at(positions, pos as int) is Some
    &&& forall|pos: i32| #[trigger]
        map.contains_key(pos) ==> last_token_at(positions, pos as int) == Some(map[pos] as int)
}

/// Maps each position of the ubatch to the last token there.
fn index_tokens(positions: &[i32]) -> (map: HashMap<i32, usize>)
    ensures
        indexes(map@, positions@),
{
    broadcast use vstd::std_specs::hash::group_hash_axioms;

    let mut map: HashMap<i32, usize> = HashMap::new();
    let mut i: usize = 0;
    while i < positions.len()
        invariant
            i <= positions.len(),
            indexes(map@, positions@.take(i as int)),
        decreases positions.len() - i,
    {
        let pos = positions[i];
        if pos >= 0 {
            map.insert(pos, i);
        }
        assert(positions@.take(i + 1).drop_last() =~= positions@.take(i as int));
        i += 1;
    }
    assert(positions@.take(positions@.len() as int) =~= positions@);
    map
}

/// The row that holds the compressor state of position `pos`.
fn state_source_idx(
    curr_token_idx: &HashMap<i32, usize>,
    positions: &[i32],
    state_size: u32,
    pos: i64,
) -> (row: i32)
    requires
        state_size > 0,
        pos <= i32::MAX,
        indexes(curr_token_idx@, positions@),
    ensures
        row == source_row(positions@, state_size, pos as int),
{
    broadcast use vstd::std_specs::hash::group_hash_axioms;

    if pos < 0 {
        return row_id(state_size, positions.len());
    }
    let key = pos as i32;
    match curr_token_idx.get(&key) {
        Some(token) => row_id(state_size, *token),
        None => {
            assert(!curr_token_idx@.contains_key(key));
            (pos % state_size as i64) as i32
        },
    }
}

/// Appends the source rows of the `ratio` positions from `start` on.
fn push_window(
    reads: &mut Vec<i32>,
    curr_token_idx: &HashMap<i32, usize>,
    positions: &[i32],
    ratio: u32,
    state_size: u32,
    start: i64,
)
    requires
        state_size > 0,
        i64::MIN + ratio <= start,
        start + ratio - 1 <= i32::MAX,
        indexes(curr_token_idx@, positions@),
    ensures
        final(reads)@ == old(reads)@ + window(positions@, ratio, state_size, start as int),
{
    let mut j: u32 = 0;
    while j < ratio
        invariant
            j <= ratio,
            state_size > 0,
            start + ratio - 1 <= i32::MAX,
            indexes(curr_token_idx@, positions@),
            reads@ =~= old(reads)@ + window(positions@, ratio, state_size, start as int).take(
                j as int,
            ),
        decreases ratio - j,
    {
        let row = state_source_idx(curr_token_idx, positions, state_size, start + j as i64);
        reads.push(row);
        j += 1;
    }
}

/// Appends `row`, `n` times.
fn push_repeated(reads: &mut Vec<i32>, row: i32, n: u32)
    ensures
        final(reads)@ == old(reads)@ + Seq::new(n as nat, |k: int| row),
{
    let mut k: u32 = 0;
    while k < n
        invariant
            k <= n,
            reads@ =~= old(reads)@ + Seq::new(k as nat, |j: int| row),
        decreases n - k,
    {
        reads.push(row);
        k += 1;
    }
}

/// One more block appends one more window.
proof fn lemma_window_reads_push(
    blocks: Seq<i32>,
    pos: i32,
    earlier: int,
    positions: Seq<i32>,
    ratio: u32,
    state_size: u32,
)
    requires
        ratio > 0,
    ensures
        window_reads(blocks.push(pos), earlier, positions, ratio, state_size) == window_reads(
            blocks,
            earlier,
            positions,
            ratio,
            state_size,
        ) + window(positions, ratio, state_size, pos + 1 - ratio - earlier),
{
    let r = ratio as int;
    let n = blocks.len() as int;
    let whole = window_reads(blocks.push(pos), earlier, positions, ratio, state_size);
    let before = window_reads(blocks, earlier, positions, ratio, state_size);
    let last = window(positions, ratio, state_size, pos + 1 - ratio - earlier);
    assert((n + 1) * r == n * r + r) by (nonlinear_arith);
    assert forall|k: int| 0 <= k < whole.len() implies whole[k] == (before + last)[k] by {
        if k < n * r {
            vstd::arithmetic::div_mod::lemma_multiply_divide_lt(k, r, n);
            vstd::arithmetic::div_mod::lemma_div_pos_is_pos(k, r);
        } else {
            vstd::arithmetic::div_mod::lemma_fundamental_div_mod_converse(k, r, n, k - n * r);
        }
    }
    assert(whole =~= before + last);
}

/// At most one token is kept per ring row.
pub proof fn lemma_keeps_unique(positions: Seq<i32>, state_size: u32, row: int, i: int, j: int)
    requires
        keeps(positions, state_size, row, i),
        keeps(positions, state_size, row, j),
    ensures
        i == j,
{
    assert(lands_on(positions, state_size, row, i));
    assert(lands_on(positions, state_size, row, j));
}

/// The token that ring row `row` keeps once a token at `pos` follows `seen`: the new one where it
/// is the first or the highest on the row, and what the row kept otherwise.
spec fn kept_after(seen: Seq<i32>, pos: i32, state_size: u32, row: int) -> int {
    let kept = kept_token(seen, state_size, row);
    if pos >= 0 && pos as int % state_size as int == row && (!touched(seen, state_size, row) || pos
        > seen[kept]) {
        seen.len() as int
    } else {
        kept
    }
}

proof fn lemma_kept_step(seen: Seq<i32>, pos: i32, state_size: u32, row: int)
    requires
        touched(seen, state_size, row) ==> keeps(
            seen,
            state_size,
            row,
            kept_token(seen, state_size, row),
        ),
    ensures
        touched(seen.push(pos), state_size, row) <==> touched(seen, state_size, row) || (pos >= 0
            && pos as int % state_size as int == row),
        touched(seen.push(pos), state_size, row) ==> keeps(
            seen.push(pos),
            state_size,
            row,
            kept_after(seen, pos, state_size, row),
        ),
{
    let next = seen.push(pos);
    let hit = pos >= 0 && pos as int % state_size as int == row;
    let candidate = kept_after(seen, pos, state_size, row);
    assert(forall|i: int|
        0 <= i < seen.len() ==> (#[trigger] lands_on(next, state_size, row, i) <==> lands_on(
            seen,
            state_size,
            row,
            i,
        )));
    assert(lands_on(next, state_size, row, seen.len() as int) <==> hit);
    if touched(seen, state_size, row) {
        let i = choose|i: int| lands_on(seen, state_size, row, i);
        assert(lands_on(next, state_size, row, i));
    }
    if touched(next, state_size, row) {
        let i = choose|i: int| lands_on(next, state_size, row, i);
        assert(hit || lands_on(seen, state_size, row, i));
        assert(lands_on(next, state_size, row, candidate));
        assert forall|j: int| #[trigger] lands_on(next, state_size, row, j) implies next[j]
            < next[candidate] || (next[j] == next[candidate] && candidate <= j) by {
            if j < seen.len() {
                assert(lands_on(seen, state_size, row, j));
            }
        }
    }
}

/// A touched row keeps some token.
pub proof fn lemma_kept_exists(positions: Seq<i32>, state_size: u32, row: int)
    requires
        touched(positions, state_size, row),
    ensures
        keeps(positions, state_size, row, kept_token(positions, state_size, row)),
    decreases positions.len(),
{
    let seen = positions.drop_last();
    assert(positions =~= seen.push(positions.last()));
    if touched(seen, state_size, row) {
        lemma_kept_exists(seen, state_size, row);
    }
    lemma_kept_step(seen, positions.last(), state_size, row);
}

/// What one more token changes: the ring row of its own position keeps it where its position is
/// higher than every one before; any other row keeps what it kept.
proof fn lemma_kept_push(seen: Seq<i32>, pos: i32, state_size: u32, row: int)
    ensures
        touched(seen.push(pos), state_size, row) <==> touched(seen, state_size, row) || (pos >= 0
            && pos as int % state_size as int == row),
        touched(seen, state_size, row) ==> keeps(
            seen,
            state_size,
            row,
            kept_token(seen, state_size, row),
        ),
        touched(seen.push(pos), state_size, row) ==> kept_token(seen.push(pos), state_size, row)
            == kept_after(seen, pos, state_size, row),
{
    if touched(seen, state_size, row) {
        lemma_kept_exists(seen, state_size, row);
    }
    lemma_kept_step(seen, pos, state_size, row);
    if touched(seen.push(pos), state_size, row) {
        lemma_keeps_unique(
            seen.push(pos),
            state_size,
            row,
            kept_after(seen, pos, state_size, row),
            kept_token(seen.push(pos), state_size, row),
        );
    }
}

/// `rows` lists what the ring rows touched by `positions` keep, in ascending order of the rows.
spec fn rows_kept(rows: Seq<PersistRow>, positions: Seq<i32>, state_size: u32) -> bool {
    &&& forall|k: int, l: int| 0 <= k < l < rows.len() ==> rows[k].dst < rows[l].dst
    &&& forall|k: int| 0 <= k < rows.len() ==> (#[trigger] rows[k]).is_kept(positions, state_size)
    &&& forall|row: int| #[trigger]
        touched(positions, state_size, row) ==> exists|k: int|
            0 <= k < rows.len() && (#[trigger] rows[k]).dst == row
}

/// Takes the next token into account: where several land on one ring row, the row keeps the first
/// of those with the highest position.
fn persist_token(
    rows: &mut Vec<PersistRow>,
    positions: &[i32],
    token: usize,
    state_size: u32,
)
    requires
        state_size > 0,
        token < positions.len(),
        positions@[token as int] >= 0,
        rows_kept(old(rows)@, positions@.take(token as int), state_size),
    ensures
        rows_kept(final(rows)@, positions@.take(token + 1), state_size),
{
    let pos = positions[token];
    let dst = (pos as u32 % state_size) as i32;
    proof {
        vstd::arithmetic::div_mod::lemma_mod_decreases(pos as nat, state_size as nat);
    }
    let ghost seen = positions@.take(token as int);
    let ghost next = positions@.take(token + 1);
    let ghost before = rows@;
    let mut k: usize = 0;
    while k < rows.len() && rows[k].dst < dst
        invariant
            k <= rows.len(),
            forall|l: int| 0 <= l < k ==> (#[trigger] rows@[l]).dst < dst,
        decreases rows.len() - k,
    {
        k += 1;
    }
    assert(next =~= seen.push(pos));
    assert forall|row: int|
        {
            &&& #[trigger] touched(next, state_size, row) <==> touched(seen, state_size, row) || dst
                == row
            &&& touched(next, state_size, row) ==> kept_token(next, state_size, row) == kept_after(
                seen,
                pos,
                state_size,
                row,
            )
            &&& touched(seen, state_size, row) ==> lands_on(
                seen,
                state_size,
                row,
                kept_token(seen, state_size, row),
            )
        } by {
        lemma_kept_push(seen, pos, state_size, row);
    }
    if k < rows.len() && rows[k].dst == dst {
        assert(touched(seen, state_size, dst as int));
        if pos > rows[k].pos {
            rows[k] = PersistRow { dst, src: token as i32, pos };
        }
        assert forall|l: int| 0 <= l < rows@.len() implies (#[trigger] rows@[l]).is_kept(
            next,
            state_size,
        ) by {
            assert(before[l].is_kept(seen, state_size));
            assert(touched(next, state_size, rows@[l].dst as int));
        }
        assert forall|row: int| #[trigger] touched(next, state_size, row) implies exists|l: int|
            0 <= l < rows@.len() && (#[trigger] rows@[l]).dst == row by {
            if row == dst {
                assert(rows@[k as int].dst == row);
            } else {
                assert(touched(seen, state_size, row));
                let l = choose|l: int| 0 <= l < before.len() && (#[trigger] before[l]).dst == row;
                assert(rows@[l].dst == row);
            }
        }
    } else {
        rows.insert(k, PersistRow { dst, src: token as i32, pos });
        assert(!touched(seen, state_size, dst as int)) by {
            if touched(seen, state_size, dst as int) {
                let l = choose|l: int| 0 <= l < before.len() && (#[trigger] before[l]).dst == dst;
                assert(before[k as int].dst > dst);
            }
        }
        assert forall|l: int| 0 <= l < rows@.len() implies (#[trigger] rows@[l]).is_kept(
            next,
            state_size,
        ) by {
            if l < k {
                assert(before[l].is_kept(seen, state_size));
            } else if l > k {
                assert(before[l - 1].is_kept(seen, state_size));
            }
            assert(touched(next, state_size, rows@[l].dst as int));
        }
        assert forall|row: int| #[trigger] touched(next, state_size, row) implies exists|l: int|
            0 <= l < rows@.len() && (#[trigger] rows@[l]).dst == row by {
            if row == dst {
                assert(rows@[k as int].dst == row);
            } else {
                assert(touched(seen, state_size, row));
                let l = choose|l: int| 0 <= l < before.len() && (#[trigger] before[l]).dst == row;
                assert(rows@[if l < k {
                    l
                } else {
                    l + 1
                }].dst == row);
            }
        }
    }
}

/// The tokens and the rows of `rows`, side by side, are what the plan persists.
proof fn lemma_persists(rows: Seq<PersistRow>, positions: Seq<i32>, state_size: u32)
    requires
        rows_kept(rows, positions, state_size),
    ensures
        persists(
            rows.map_values(|row: PersistRow| row.src),
            rows.map_values(|row: PersistRow| row.dst),
            positions,
            state_size,
        ),
{
    let src = rows.map_values(|row: PersistRow| row.src);
    let dst = rows.map_values(|row: PersistRow| row.dst);
    assert forall|row: i32| #[trigger]
        dst.contains(row) <==> touched(positions, state_size, row as int) by {
        if dst.contains(row) {
            let k = choose|k: int| 0 <= k < dst.len() && dst[k] == row;
            assert(rows[k].is_kept(positions, state_size));
        }
        if touched(positions, state_size, row as int) {
            let k = choose|k: int| 0 <= k < rows.len() && (#[trigger] rows[k]).dst == row;
            assert(dst[k] == row);
        }
    }
    assert forall|k: int| 0 <= k < dst.len() implies #[trigger] src[k] == kept_token(
        positions,
        state_size,
        dst[k] as int,
    ) as i32 by {
        assert(rows[k].is_kept(positions, state_size));
    }
}

/// Padding changes nothing of what the ring rows keep.
proof fn lemma_padding(rows: Seq<PersistRow>, seen: Seq<i32>, pos: i32, state_size: u32)
    requires
        pos < 0,
        rows_kept(rows, seen, state_size),
    ensures
        rows_kept(rows, seen.push(pos), state_size),
{
    let next = seen.push(pos);
    assert forall|row: int|
        {
            &&& #[trigger] touched(next, state_size, row) <==> touched(seen, state_size, row)
            &&& touched(seen, state_size, row) ==> kept_token(next, state_size, row) == kept_token(
                seen,
                state_size,
                row,
            )
            &&& touched(seen, state_size, row) ==> lands_on(
                seen,
                state_size,
                row,
                kept_token(seen, state_size, row),
            )
        } by {
        lemma_kept_push(seen, pos, state_size, row);
    }
    assert forall|k: int| 0 <= k < rows.len() implies (#[trigger] rows[k]).is_kept(
        next,
        state_size,
    ) by {
        assert(touched(next, state_size, rows[k].dst as int));
    }
}

/// What one more token adds to the vectors that hold one entry per token or per block.
proof fn lemma_next_token(seen: Seq<i32>, pos: i32, ratio: u32)
    ensures
        visible_rows(seen.push(pos), ratio) == visible_rows(seen, ratio).push(
            if pos < 0 {
                0i32
            } else {
                completed_blocks(pos, ratio) as i32
            },
        ),
        most_completed(seen.push(pos), ratio) == if pos >= 0 && completed_blocks(pos, ratio)
            > most_completed(seen, ratio) {
            completed_blocks(pos, ratio)
        } else {
            most_completed(seen, ratio)
        },
        valid_positions(seen.push(pos)) == if pos >= 0 {
            valid_positions(seen).push(pos)
        } else {
            valid_positions(seen)
        },
        rows_in_block(seen.push(pos), ratio) == if pos >= 0 {
            rows_in_block(seen, ratio).push((pos as int % ratio as int) as i32)
        } else {
            rows_in_block(seen, ratio)
        },
        block_ends(seen.push(pos), ratio) == if ends_block(pos, ratio) {
            block_ends(seen, ratio).push(pos)
        } else {
            block_ends(seen, ratio)
        },
{
    reveal(Seq::filter);
    let next = seen.push(pos);
    assert(next.drop_last() =~= seen);
    assert(visible_rows(next, ratio) =~= visible_rows(seen, ratio).push(
        if pos < 0 {
            0i32
        } else {
            completed_blocks(pos, ratio) as i32
        },
    ));
    if pos >= 0 {
        assert(rows_in_block(next, ratio) =~= rows_in_block(seen, ratio).push(
            (pos as int % ratio as int) as i32,
        ));
    }
}

/// Builds the compressor plan of a ubatch of a single stream with a single sequence.
///
/// - `positions`: the token positions of the ubatch, in ubatch order; a negative entry marks a
///   padding slot.
/// - `n_seqs`: number of distinct sequences in the ubatch. Refused above one.
/// - `ratio`: the pooling ratio of the compressor ([`DSV4_CSA_RATIO`] or [`DSV4_HCA_RATIO`]).
/// - `overlap`: whether the compressor pools the previous window and the current one per block, or
///   the current one alone.
/// - `state_size`: row count of the persistent-state ring.
/// - `kv_size`: row count of the compressed cache. Only its last row is addressed here, as the
///   target of the dummy commit.
pub fn build_dsv4_comp_plan(
    positions: &[i32],
    n_seqs: u32,
    ratio: u32,
    overlap: bool,
    state_size: u32,
    kv_size: u32,
) -> (r: Result<Dsv4CompPlan, PlanError>)
    requires
        n_seqs <= 1 && valid_positions(positions@).len() > 0 ==> ratio > 0 && state_size > 0,
        n_seqs <= 1 && needs_dummy(positions@, ratio) ==> kv_size > 0,
    ensures
        match r {
            Ok(plan) => n_seqs <= 1 && plan.is_for(
                positions@,
                ratio,
                overlap,
                state_size,
                kv_size,
            ),
            Err(e) => n_seqs > 1 && e == PlanError::MultipleSequences,
        },
{
    if n_seqs > 1 {
        return Err(PlanError::MultipleSequences);
    }
    let curr_token_idx = index_tokens(positions);

    let mut n_visible: Vec<i32> = Vec::new();
    let mut n_kv: i64 = 0;
    let mut state_pos: Vec<i32> = Vec::new();
    let mut state_write_idxs: Vec<i32> = Vec::new();
    let mut state_write_pos: Vec<i32> = Vec::new();
    let mut prev_reads: Vec<i32> = Vec::new();
    let mut cur_reads: Vec<i32> = Vec::new();
    let mut persist_rows: Vec<PersistRow> = Vec::new();
    let mut first_valid: Option<i32> = None;

    let mut i: usize = 0;
    while i < positions.len()
        invariant
            i <= positions.len(),
            valid_positions(positions@).len() > 0 ==> ratio > 0 && state_size > 0,
            indexes(curr_token_idx@, positions@),
            n_visible@ == visible_rows(positions@.take(i as int), ratio),
            0 <= n_kv <= 0x8000_0000,
            n_kv == most_completed(positions@.take(i as int), ratio),
            state_pos@ == rows_in_block(positions@.take(i as int), ratio),
            state_write_idxs@ == block_ends(positions@.take(i as int), ratio).map_values(
                |pos: i32| (pos as int / ratio as int) as i32,
            ),
            state_write_pos@ == block_ends(positions@.take(i as int), ratio).map_values(
                |pos: i32| (pos + 1 - ratio) as i32,
            ),
            overlap ==> prev_reads@ == window_reads(
                block_ends(positions@.take(i as int), ratio),
                ratio as int,
                positions@,
                ratio,
                state_size,
            ),
            cur_reads@ == window_reads(
                block_ends(positions@.take(i as int), ratio),
                0,
                positions@,
                ratio,
                state_size,
            ),
            rows_kept(persist_rows@, positions@.take(i as int), state_size),
            first_valid == if valid_positions(positions@.take(i as int)).len() == 0 {
                None
            } else {
                Some(valid_positions(positions@.take(i as int))[0])
            },
        decreases positions.len() - i,
    {
        let pos = positions[i];
        let ghost seen = positions@.take(i as int);
        let ghost next = positions@.take(i + 1);
        proof {
            assert(next =~= seen.push(pos));
            lemma_next_token(seen, pos, ratio);
            if pos < 0 {
                lemma_padding(persist_rows@, seen, pos, state_size);
            } else {
                positions@.lemma_filter_contains(|pos: i32| pos >= 0, i as int);
                vstd::arithmetic::div_mod::lemma_div_nonincreasing(pos + 1, ratio as int);
                vstd::arithmetic::div_mod::lemma_div_pos_is_pos(pos + 1, ratio as int);
            }
            if ends_block(pos, ratio) {
                let blocks = block_ends(seen, ratio);
                lemma_window_reads_push(blocks, pos, 0, positions@, ratio, state_size);
                lemma_window_reads_push(
                    blocks,
                    pos,
                    ratio as int,
                    positions@,
                    ratio,
                    state_size,
                );
            }
        }
        if pos < 0 {
            n_visible.push(0);
            i += 1;
            continue;
        }
        if first_valid.is_none() {
            first_valid = Some(pos);
        }
        state_pos.push((pos as u32 % ratio) as i32);

        // The floor: a trailing partial block is invisible until a later ubatch completes it.
        let visible: i64 = (pos as i64 + 1) / ratio as i64;
        n_visible.push(visible as i32);
        if visible > n_kv {
            n_kv = visible;
        }
        persist_token(&mut persist_rows, positions, i, state_size);

        if (pos as u32 + 1) % ratio == 0 {
            // The block is complete: commit its cache row, roped at its first position.
            let source_start: i64 = pos as i64 + 1 - ratio as i64;
            state_write_idxs.push((pos as u32 / ratio) as i32);
            state_write_pos.push(source_start as i32);
            if overlap {
                push_window(
                    &mut prev_reads,
                    &curr_token_idx,
                    positions,
                    ratio,
                    state_size,
                    source_start - ratio as i64,
                );
            }
            push_window(
                &mut cur_reads,
                &curr_token_idx,
                positions,
                ratio,
                state_size,
                source_start,
            );
        }
        i += 1;
    }
    assert(positions@.take(positions@.len() as int) =~= positions@);

    // A CSA ubatch that commits nothing gets one dummy commit, so that the graph of a decode step
    // has the same shape on and off a block boundary.
    if ratio == DSV4_CSA_RATIO && state_write_idxs.len() == 0 {
        if let Some(pos) = first_valid {
            let source_idx = state_source_idx(&curr_token_idx, positions, state_size, pos as i64);
            state_write_idxs.push((kv_size - 1) as i32);
            state_write_pos.push(0);
            if overlap {
                push_repeated(&mut prev_reads, source_idx, ratio);
            }
            push_repeated(&mut cur_reads, source_idx, ratio);
        }
    }
    let mut state_read_idxs: Vec<i32> = Vec::new();
    if overlap {
        state_read_idxs.append(&mut prev_reads);
    }
    state_read_idxs.append(&mut cur_reads);
    assert(state_read_idxs@ =~= state_reads(positions@, ratio, overlap, state_size));
    assert(state_write_idxs@ =~= cache_rows(positions@, ratio, kv_size));
    assert(state_write_pos@ =~= rope_positions(positions@, ratio));

    let mut state_persist_src_idxs: Vec<i32> = Vec::new();
    let mut state_persist_dst_idxs: Vec<i32> = Vec::new();
    let mut k: usize = 0;
    while k < persist_rows.len()
        invariant
            k <= persist_rows.len(),
            state_persist_src_idxs@ == persist_rows@.take(k as int).map_values(
                |row: PersistRow| row.src,
            ),
            state_persist_dst_idxs@ == persist_rows@.take(k as int).map_values(
                |row: PersistRow| row.dst,
            ),
        decreases persist_rows.len() - k,
    {
        state_persist_src_idxs.push(persist_rows[k].src);
        state_persist_dst_idxs.push(persist_rows[k].dst);
        k += 1;
    }
    proof {
        assert(persist_rows@.take(persist_rows@.len() as int) =~= persist_rows@);
        lemma_persists(persist_rows@, positions@, state_size);
    }
    Ok(
        Dsv4CompPlan {
            n_visible,
            n_kv: pad_width(n_kv),
            state_pos,
            state_read_idxs,
            state_write_idxs,
            state_write_pos,
            state_persist_src_idxs,
            state_persist_dst_idxs,
        },
    )
}

} // verus!
