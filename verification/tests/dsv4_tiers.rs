use infr::dsv4_tiers::{refuse_compressed_layer, CompressedLayer};

/// Five layers that cover every tier; layer 1 is the first compressed one.
const DSV4_RATIOS: [u32; 5] = [0, 4, 128, 4, 0];

/// A compressed layer is refused, by name, and the message says which layer and which tier.
#[test]
fn synthetic_deepseek4_refuses_a_compressed_layer() {
    let err = refuse_compressed_layer(&DSV4_RATIOS)
        .unwrap_err()
        .to_string();
    println!("deepseek4 graph build: {err}");
    assert_eq!(
        err,
        "arch=deepseek4 (DeepSeek V4) layer 1 has compress_ratio 4: only the ratio-0 tier (pure \
         sliding window) generates. A compressed layer needs the CSA compressor over blocks of 4 \
         tokens, its persistent compressor state, the CSA/HCA block cache and the lightning \
         indexer with its own compressor + LID cache — none of which is implemented. See \
         docs/deepseek.md § Stage 4."
    );

    // The OTHER compressed tier names itself too: a model whose only non-zero ratio is 128 must
    // not be reported as a CSA layer.
    let err = refuse_compressed_layer(&[0, 0, 128, 0, 0])
        .unwrap_err()
        .to_string();
    println!("deepseek4 hca-only graph build: {err}");
    assert!(
        err.contains("layer 2 has compress_ratio 128")
            && err.contains("HCA compressor over blocks of 128 tokens")
            && !err.contains("lightning indexer"),
        "the ratio-128 refusal must name the HCA tier and NOT the indexer (which is ratio 4's), \
         got: {err}"
    );
}

#[test]
fn the_sliding_window_tier_is_accepted() {
    assert!(refuse_compressed_layer(&[]).is_ok());
    assert!(refuse_compressed_layer(&[0, 0, 0]).is_ok());
}

#[test]
fn refusal_writes_the_layer_in_decimal() {
    let mut ratios = vec![0u32; 120];
    ratios[107] = 4;
    ratios[110] = 128;
    let err = refuse_compressed_layer(&ratios).unwrap_err();
    assert_eq!(err, CompressedLayer { layer: 107, ratio: 4 });
    assert!(err.to_string().contains("layer 107 has compress_ratio 4:"));
}
