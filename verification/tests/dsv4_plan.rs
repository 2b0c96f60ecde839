use infr::dsv4_plan::{
    build_dsv4_comp_plan, Dsv4CompPlan, PlanError, DSV4_CSA_RATIO, DSV4_HCA_RATIO,
};

/// 12-token CSA prefill, ratio 4, overlap, `state_size = 8`, positions `0..=11`. Commits
/// happen at `pos` 3, 7, 11 (block boundaries), giving three full blocks — enough to exercise
/// the sentinel path (block 0's previous window), the ring-wrap persist dedup (12 tokens >
/// `state_size` 8), and the two-halves overlap read order, all with vectors derived by hand
/// below rather than asserted only on length.
///
/// Derivation (ratio=4, state_size=8, kv_size=16, n_tokens=12, positions[i] == i):
/// - `state_pos[i] = pos % 4` for all 12 tokens: `[0,1,2,3, 0,1,2,3, 0,1,2,3]`.
/// - `n_visible[i] = (pos+1)/4` floor: `[0,0,0,1, 1,1,1,2, 2,2,2,3]`; max is 3, padded to 256.
/// - Commits at pos 3 (source_start=0, write_idx=0, write_pos=0), pos 7 (source_start=4,
///   write_idx=1, write_pos=4), pos 11 (source_start=8, write_idx=2, write_pos=8).
/// - `state_source_idx`: since `positions[i] == i`, any pos in `0..=11` is this ubatch's own
///   token i, giving `state_rows(8) + i`. A pos `< 0` gives the sentinel `8 + 12 = 20`.
///   - block pos=3: prev_start=-4 -> reads -4,-3,-2,-1, all `< 0` -> sentinel `[20,20,20,20]`.
///     cur reads 0,1,2,3 -> `[8,9,10,11]`.
///   - block pos=7: prev_start=0 -> reads 0,1,2,3 -> `[8,9,10,11]` (this ubatch's own rows).
///     cur reads 4,5,6,7 -> `[12,13,14,15]`.
///   - block pos=11: prev_start=4 -> reads 4,5,6,7 -> `[12,13,14,15]`.
///     cur reads 8,9,10,11 -> `[16,17,18,19]`.
///   - three blocks are committed, so no CSA dummy block.
///   - two-halves concat: prev (12) then cur (12), 24 entries total.
/// - Persist ring dedup (`dst = pos % 8`): pos 8..11 (indices 8..11) overwrite pos 0..3
///   (indices 0..3) at the same ring rows since 8 > 0 etc; pos 4..7 (indices 4..7) are
///   untouched. Sorted by dst 0..7: `src = [8,9,10,11, 4,5,6,7]`.
#[test]
fn prefill_commits_several_csa_blocks_overlap() {
    let positions: Vec<i32> = (0..12).collect();
    let plan = build_dsv4_comp_plan(&positions, 1, DSV4_CSA_RATIO, true, 8, 16).unwrap();

    assert_eq!(plan.state_pos, vec![0, 1, 2, 3, 0, 1, 2, 3, 0, 1, 2, 3]);
    assert_eq!(plan.n_visible, vec![0, 0, 0, 1, 1, 1, 1, 2, 2, 2, 2, 3]);
    assert_eq!(plan.n_kv, 256);

    assert_eq!(plan.state_write_idxs, vec![0, 1, 2]);
    assert_eq!(plan.state_write_pos, vec![0, 4, 8]);

    let expected_reads = vec![
        // prev half: block0 (sentinel), block1, block2
        20, 20, 20, 20, 8, 9, 10, 11, 12, 13, 14, 15,
        // cur half: block0, block1, block2
        8, 9, 10, 11, 12, 13, 14, 15, 16, 17, 18, 19,
    ];
    assert_eq!(plan.state_read_idxs, expected_reads);

    assert_eq!(plan.state_persist_src_idxs, vec![8, 9, 10, 11, 4, 5, 6, 7]);
    assert_eq!(plan.state_persist_dst_idxs, vec![0, 1, 2, 3, 4, 5, 6, 7]);
}

/// Isolates the overlap two-halves order on its own (smaller than the big prefill test, and
/// starting mid-stream so the previous window is read from the persistent RING rather than
/// the sentinel, exercising the other branch of `state_source_idx`).
///
/// Derivation (ratio=4, overlap, state_size=8, positions `4..=11`, so ubatch index i has
/// pos = 4+i):
/// - Commits at pos 7 (i=3: source_start=4, write_idx=1, write_pos=4) and pos 11 (i=7:
///   source_start=8, write_idx=2, write_pos=8).
/// - block pos=7: prev_start=0 -> reads pos 0,1,2,3, none in this ubatch -> ring `pos % 8` ->
///   `[0,1,2,3]`. cur reads pos 4,5,6,7 -> this ubatch's i=0..3 -> `state_rows(8)+i` ->
///   `[8,9,10,11]`.
/// - block pos=11: prev_start=4 -> reads pos 4,5,6,7 -> this ubatch's i=0..3 -> `[8,9,10,11]`
///   (same values as block0's cur half — expected, both address the same rows). cur reads pos
///   8,9,10,11 -> this ubatch's i=4..7 -> `[12,13,14,15]`.
/// - Two-halves concat: `[0,1,2,3, 8,9,10,11]` (prev) then `[8,9,10,11, 12,13,14,15]` (cur).
///   An interleaved implementation would instead produce
///   `[0,1,2,3, 8,9,10,11, 8,9,10,11, 12,13,14,15]` in per-block prev/cur/prev/cur order,
///   which happens to coincide here in the middle four entries but diverges at the front and
///   back — this is why the big prefill test's sentinel-filled block0 is the sharper check.
#[test]
fn overlap_two_halves_are_not_interleaved() {
    let positions: Vec<i32> = (4..12).collect();
    let plan = build_dsv4_comp_plan(&positions, 1, DSV4_CSA_RATIO, true, 8, 16).unwrap();

    assert_eq!(plan.state_write_idxs, vec![1, 2]);
    assert_eq!(
        plan.state_read_idxs,
        vec![0, 1, 2, 3, 8, 9, 10, 11, 8, 9, 10, 11, 12, 13, 14, 15]
    );
}

/// Block 0's previous window is entirely before the sequence start (`pos < 0`), so all
/// `ratio` of its prev-half reads must be the sentinel row `state_rows + n_tokens`.
#[test]
fn block_zero_prev_window_is_all_sentinel() {
    let positions: Vec<i32> = vec![0, 1, 2, 3];
    let state_size = 8u32;
    let plan =
        build_dsv4_comp_plan(&positions, 1, DSV4_CSA_RATIO, true, state_size, 16).unwrap();

    let sentinel = state_size as i32 + positions.len() as i32;
    assert_eq!(plan.state_read_idxs[0..4], vec![sentinel; 4]);
    // cur half: pos 0..3 are this ubatch's own tokens i=0..3 -> state_size + i.
    assert_eq!(
        plan.state_read_idxs[4..8],
        vec![
            state_size as i32,
            state_size as i32 + 1,
            state_size as i32 + 2,
            state_size as i32 + 3
        ]
    );
}

/// A single-token CSA decode step off a block boundary: no real commit (pos=13,
/// `(13+1) % 4 == 2 != 0`), but the CSA dummy block IS appended so this step's graph matches
/// a boundary step's. Uses `overlap = false` to exercise that branch's inline (non-two-halves)
/// read layout.
#[test]
fn decode_step_csa_appends_dummy_block() {
    let positions: Vec<i32> = vec![13];
    let state_size = 8u32;
    let kv_size = 16u32;
    let plan = build_dsv4_comp_plan(&positions, 1, DSV4_CSA_RATIO, false, state_size, kv_size)
        .unwrap();

    assert_eq!(plan.state_write_idxs, vec![kv_size as i32 - 1]);
    assert_eq!(plan.state_write_pos, vec![0]);
    // pos 13 is this ubatch's own token i=0 -> state_size + 0.
    assert_eq!(plan.state_read_idxs, vec![state_size as i32; 4]);
    assert_eq!(plan.state_pos, vec![13 % 4]);
}

/// The HCA counterpart of the above: a single-token decode step off a block boundary gets
/// no commit and, because the CSA branch is gated on `ratio == DSV4_CSA_RATIO`, no dummy
/// block either. Also doubles as the `n_kv == 0` short-prefill case: `(50+1)/128` floors to
/// `0`, and zero rows are padded to none.
#[test]
fn decode_step_hca_has_no_commit_and_no_dummy() {
    let positions: Vec<i32> = vec![50];
    let plan = build_dsv4_comp_plan(&positions, 1, DSV4_HCA_RATIO, false, 128, 32).unwrap();

    assert!(plan.state_write_idxs.is_empty());
    assert!(plan.state_write_pos.is_empty());
    assert!(plan.state_read_idxs.is_empty());
    assert_eq!(plan.n_visible, vec![0]);
    assert_eq!(plan.n_kv, 0);
}

/// A trailing partial block at the end of a longer CSA prefill: positions 0..=5 complete one
/// block (pos 3) but leave pos 4,5 as an incomplete second block. `n_visible` must floor —
/// tokens 4 and 5 stay at the SAME `n_visible` as token 3 (`1`), not `2` — and that partial
/// block is never committed. The dummy does NOT appear either: this ubatch already made a
/// real commit, and the padding exists only to give a commit-less ubatch one.
#[test]
fn n_visible_floors_at_a_trailing_partial_block() {
    let positions: Vec<i32> = vec![0, 1, 2, 3, 4, 5];
    let plan = build_dsv4_comp_plan(&positions, 1, DSV4_CSA_RATIO, false, 8, 16).unwrap();

    assert_eq!(plan.n_visible, vec![0, 0, 0, 1, 1, 1]);
    assert_eq!(plan.state_write_idxs, vec![0]); // real commit only: pos/ratio = 3/4 = 0
    assert_eq!(plan.state_write_pos, vec![0]);
}

/// Persist-row dedup under ring wrap: more tokens (12) than `state_size` (8), so positions
/// 8..11 land on the same ring rows as 0..3. The surviving `src` must be the HIGHER-pos
/// token's index, and destinations must come out sorted. (This is the same ubatch as
/// `prefill_commits_several_csa_blocks_overlap`; isolated here so the persist assertion
/// stands on its own.)
#[test]
fn persist_dedup_keeps_highest_pos_and_sorts_by_dst() {
    let positions: Vec<i32> = (0..12).collect();
    let plan = build_dsv4_comp_plan(&positions, 1, DSV4_CSA_RATIO, true, 8, 16).unwrap();

    assert_eq!(plan.state_persist_dst_idxs, vec![0, 1, 2, 3, 4, 5, 6, 7]);
    // dst 0..3 are won by tokens 8..11 (higher pos); dst 4..7 only ever touched by 4..7.
    assert_eq!(plan.state_persist_src_idxs, vec![8, 9, 10, 11, 4, 5, 6, 7]);
}

/// The plan is for a single stream, so more than one sequence in a ubatch must be refused rather
/// than silently addressing the wrong ring rows.
#[test]
fn refuses_more_than_one_sequence() {
    let err = build_dsv4_comp_plan(&[0, 1, 2, 3], 2, DSV4_CSA_RATIO, true, 8, 16).unwrap_err();
    assert!(
        err.to_string().contains("single compressed stream"),
        "unexpected error: {err:?}"
    );
    assert_eq!(
        err.to_string(),
        "DSV4 single compressed stream cannot serve multiple sequences"
    );
}

/// A multi-token CSA ubatch that commits NOTHING gets exactly ONE dummy, not one per block
/// the token count implies. 9 tokens whose absolute positions never land on a `%4 == 3`
/// boundary (0-2, 100-102, 200-202), so no block completes.
///
/// The reads are all the same repeated source: pos 0 is this ubatch's own token `i == 0`, so
/// `state_source_idx` returns the scratch row `state_size + 0`, and the overlapping
/// compressor repeats it across both halves.
#[test]
fn csa_ubatch_with_no_commits_pads_exactly_one_dummy() {
    let positions: Vec<i32> = vec![0, 1, 2, 100, 101, 102, 200, 201, 202];
    let state_size = 8u32;
    let kv_size = 16u32;
    let plan =
        build_dsv4_comp_plan(&positions, 1, DSV4_CSA_RATIO, true, state_size, kv_size).unwrap();

    assert_eq!(plan.state_write_idxs, vec![kv_size as i32 - 1]);
    assert_eq!(plan.state_write_pos, vec![0]);
    assert_eq!(
        plan.state_read_idxs,
        vec![state_size as i32; 2 * DSV4_CSA_RATIO as usize]
    );
}

#[test]
fn the_refusal_comes_before_anything_else() {
    // Nothing else of the request is looked at, not even a zero ratio.
    let r = build_dsv4_comp_plan(&[0], 2, 0, true, 0, 0);
    assert_eq!(r.unwrap_err(), PlanError::MultipleSequences);
    // No sequence at all is not more than one.
    assert!(build_dsv4_comp_plan(&[0], 0, DSV4_CSA_RATIO, true, 8, 16).is_ok());
}

/// A ubatch without tokens, or of padding alone, has nothing to plan, whatever the compressor.
#[test]
fn padding_alone_plans_nothing() {
    for positions in [vec![], vec![-1, -7]] {
        for (ratio, state_size) in [(0, 0), (DSV4_CSA_RATIO, 8), (DSV4_HCA_RATIO, 128)] {
            let plan = build_dsv4_comp_plan(&positions, 1, ratio, true, state_size, 0).unwrap();
            assert_eq!(
                plan,
                Dsv4CompPlan {
                    n_visible: vec![0; positions.len()],
                    n_kv: 0,
                    state_pos: vec![],
                    state_read_idxs: vec![],
                    state_write_idxs: vec![],
                    state_write_pos: vec![],
                    state_persist_src_idxs: vec![],
                    state_persist_dst_idxs: vec![],
                }
            );
        }
    }
}

/// Padding slots keep their place in `n_visible` and in the scratch rows, and nowhere else.
#[test]
fn padding_is_skipped_between_tokens() {
    let positions = vec![-1, 2, -1, 3];
    let plan = build_dsv4_comp_plan(&positions, 1, DSV4_CSA_RATIO, false, 8, 16).unwrap();
    assert_eq!(plan.n_visible, vec![0, 0, 0, 1]);
    assert_eq!(plan.state_pos, vec![2, 3]);
    assert_eq!(plan.state_write_idxs, vec![0]);
    // Positions 0 and 1 come from the ring, 2 and 3 from the scratch rows of tokens 1 and 3.
    assert_eq!(plan.state_read_idxs, vec![0, 1, 9, 11]);
    assert_eq!(plan.state_persist_dst_idxs, vec![2, 3]);
    assert_eq!(plan.state_persist_src_idxs, vec![1, 3]);
}

/// Where a position occurs twice, reads take the last token there and the ring keeps the first.
#[test]
fn repeated_positions() {
    let positions = vec![3, 3, 2];
    let plan = build_dsv4_comp_plan(&positions, 1, DSV4_CSA_RATIO, false, 8, 16).unwrap();
    // Each of the two tokens at position 3 completes the block.
    assert_eq!(plan.state_write_idxs, vec![0, 0]);
    assert_eq!(plan.state_read_idxs, vec![0, 1, 10, 9, 0, 1, 10, 9]);
    assert_eq!(plan.state_persist_dst_idxs, vec![2, 3]);
    assert_eq!(plan.state_persist_src_idxs, vec![2, 0]);
}

#[test]
fn hca_commits_at_its_own_boundary() {
    let positions: Vec<i32> = (0..128).collect();
    let plan = build_dsv4_comp_plan(&positions, 1, DSV4_HCA_RATIO, false, 128, 32).unwrap();
    assert_eq!(plan.state_write_idxs, vec![0]);
    assert_eq!(plan.state_write_pos, vec![0]);
    assert_eq!(plan.state_read_idxs, (128..256).collect::<Vec<i32>>());
    assert_eq!(plan.n_visible[126..], [0, 1]);
    assert_eq!(plan.n_kv, 256);
}

/// The width steps up one row past a multiple of the padding.
#[test]
fn width_is_padded_up() {
    for (pos, width) in [(2, 0), (3, 256), (1023, 256), (1027, 512)] {
        let plan = build_dsv4_comp_plan(&[pos], 1, DSV4_CSA_RATIO, false, 8, 4096).unwrap();
        assert_eq!(plan.n_kv, width, "at position {pos}");
    }
}

/// The highest position completes a block of four like any other.
#[test]
fn the_highest_position() {
    let pos = i32::MAX;
    let plan = build_dsv4_comp_plan(&[pos], 1, DSV4_CSA_RATIO, true, 8, 16).unwrap();
    assert_eq!(plan.n_visible, vec![536_870_912]);
    assert_eq!(plan.n_kv, 536_870_912);
    assert_eq!(plan.state_pos, vec![3]);
    assert_eq!(plan.state_write_idxs, vec![536_870_911]);
    assert_eq!(plan.state_write_pos, vec![pos - 3]);
    assert_eq!(plan.state_read_idxs, vec![0, 1, 2, 3, 4, 5, 6, 8]);
    assert_eq!(plan.state_persist_dst_idxs, vec![7]);
}

/// A ratio or a ring larger than every position: no block ends, and each position has its own row.
#[test]
fn sizes_beyond_every_position() {
    let plan = build_dsv4_comp_plan(&[5, 7], 1, u32::MAX, false, u32::MAX, 16).unwrap();
    assert_eq!(plan.n_visible, vec![0, 0]);
    assert_eq!(plan.state_pos, vec![5, 7]);
    assert!(plan.state_write_idxs.is_empty() && plan.state_read_idxs.is_empty());
    assert_eq!(plan.state_persist_dst_idxs, vec![5, 7]);
    assert_eq!(plan.state_persist_src_idxs, vec![0, 1]);
}

/// A one-token CSA step has one commit with the same number of reads at every position.
#[test]
fn csa_decode_shape_does_not_change() {
    for pos in 0..40 {
        for (overlap, reads) in [(false, 4), (true, 8)] {
            let plan = build_dsv4_comp_plan(&[pos], 1, DSV4_CSA_RATIO, overlap, 8, 64).unwrap();
            assert_eq!(plan.state_write_idxs.len(), 1);
            assert_eq!(plan.state_write_pos.len(), 1);
            assert_eq!(plan.state_read_idxs.len(), reads);
            // On a boundary the commit is real, and roped at the start of its block.
            if pos % 4 == 3 {
                assert_eq!(plan.state_write_pos[0], plan.state_write_idxs[0] * 4);
            } else {
                assert_eq!(plan.state_write_idxs[0], 63);
                assert!(plan.n_visible[0] <= 63);
            }
        }
    }
}

/// Runs a sequence through a ring, ubatch by ubatch, and checks that each window reads the
/// positions it stands for.
fn drive(ubatches: &[Vec<i32>], ratio: u32, overlap: bool, state_size: u32) {
    let mut ring: Vec<Option<i32>> = vec![None; state_size as usize];
    let r = ratio as usize;
    for positions in ubatches {
        let plan = build_dsv4_comp_plan(positions, 1, ratio, overlap, state_size, 1024).unwrap();
        let state_at = |row: i32| {
            let row = row as usize;
            if row < ring.len() {
                ring[row]
            } else {
                positions.get(row - ring.len()).copied()
            }
        };
        let blocks: Vec<i32> = positions
            .iter()
            .copied()
            .filter(|p| *p >= 0 && (p + 1) % ratio as i32 == 0)
            .collect();
        let own = if overlap { blocks.len() * r } else { 0 };
        for (b, end) in blocks.iter().enumerate() {
            for j in 0..r {
                let pos = end + 1 - ratio as i32 + j as i32;
                assert_eq!(state_at(plan.state_read_idxs[own + b * r + j]), Some(pos));
                if overlap {
                    let before = pos - ratio as i32;
                    assert_eq!(
                        state_at(plan.state_read_idxs[b * r + j]),
                        if before < 0 { None } else { Some(before) }
                    );
                }
            }
        }
        for (src, dst) in plan
            .state_persist_src_idxs
            .iter()
            .zip(&plan.state_persist_dst_idxs)
        {
            ring[*dst as usize] = Some(positions[*src as usize]);
        }
    }
}

#[test]
fn reads_are_fresh_across_ubatches() {
    let split = |sizes: &[i32]| {
        let mut start = 0;
        let mut ubatches: Vec<Vec<i32>> = Vec::new();
        for n in sizes {
            ubatches.push((start..start + n).collect());
            start += n;
        }
        ubatches
    };
    drive(&split(&[1; 40]), 4, true, 8);
    drive(&split(&[12, 1, 1, 1, 5, 9, 1]), 4, true, 8);
    // One row less than the windows span still suffices.
    drive(&split(&[3, 2, 1, 7, 1, 1, 20]), 4, true, 7);
    drive(&split(&[3, 2, 1, 7, 1, 1, 20]), 4, false, 3);
    drive(&split(&[100, 60, 1, 200]), 128, false, 128);
    // Any order within a ubatch, and padding between.
    drive(
        &[vec![2, -1, 0, 1], vec![6, 5, -1, 4, 3], vec![7], vec![-1, 8]],
        4,
        true,
        8,
    );
}

/// Overlap changes the reads alone: as many again come first, then those of the plain plan.
#[test]
fn overlap_only_adds_reads() {
    for positions in [(4..12).collect::<Vec<i32>>(), vec![13], vec![-1, 3, 3, 2]] {
        let plain = build_dsv4_comp_plan(&positions, 1, DSV4_CSA_RATIO, false, 8, 16).unwrap();
        let mut over = build_dsv4_comp_plan(&positions, 1, DSV4_CSA_RATIO, true, 8, 16).unwrap();
        let n = plain.state_read_idxs.len();
        assert_eq!(over.state_read_idxs.len(), 2 * n);
        over.state_read_idxs.drain(..n);
        assert_eq!(over, plain);
    }
}
