use grout::dequant::GgmlType;
use grout::gguf::{Content, TensorInfo, Version};
use grout::names::NameMap;
use grout::quant_scratch::{
    dequant_tiles_for_scratch, is_transformer_projection, prefill_dequant_scratch_plan,
    ScratchError,
};

fn tensor(name: &str, dtype: GgmlType, shape: &[usize]) -> TensorInfo {
    TensorInfo {
        name: name.to_string(),
        dtype,
        shape: shape.to_vec(),
        offset: 0,
    }
}

fn content(tensors: Vec<TensorInfo>) -> Content {
    let mut tensor_infos = NameMap::new();
    for t in tensors {
        tensor_infos.insert(t.name.clone(), t);
    }
    Content {
        version: Version::V3,
        metadata: NameMap::new(),
        tensor_infos,
        tensor_data_offset: 0,
    }
}

#[test]
fn scratch_plan_excludes_lm_head_and_embeddings() -> Result<(), ScratchError> {
    let tensors = vec![
        tensor("token_embd.weight", GgmlType::Q6K, &[151_936, 4096]),
        tensor("output.weight", GgmlType::Q6K, &[151_936, 4096]),
        tensor("blk.0.attn_q.weight", GgmlType::Q4K, &[4096, 4096]),
        tensor("blk.0.ffn_gate.weight", GgmlType::Q4K, &[12_288, 4096]),
        tensor("blk.0.ffn_norm.weight", GgmlType::F32, &[4096]),
    ];
    let content = content(tensors);

    let plan = prefill_dequant_scratch_plan(&content)?;
    assert_eq!(plan.tensor_name, "blk.0.ffn_gate.weight");
    assert_eq!(plan.elems, 12_288 * 4096);
    assert_eq!(plan.bytes, 12_288 * 4096 * 2);
    Ok(())
}

#[test]
fn dequant_tile_count_checks_scratch_capacity() -> Result<(), ScratchError> {
    assert_eq!(dequant_tiles_for_scratch(256, 32, 512)?, 8);
    assert!(dequant_tiles_for_scratch(544, 32, 512).is_err());
    assert!(dequant_tiles_for_scratch(33, 32, 512).is_err());
    Ok(())
}

#[test]
fn scratch_errors_name_their_reason() {
    assert_eq!(
        dequant_tiles_for_scratch(1, 0, 1),
        Err(ScratchError::ZeroTile)
    );
    assert_eq!(
        dequant_tiles_for_scratch(544, 32, 512),
        Err(ScratchError::Capacity {
            matrix_elems: 544,
            scratch_elems: 512
        })
    );
    assert_eq!(
        dequant_tiles_for_scratch(33, 32, 512),
        Err(ScratchError::PartialTile {
            matrix_elems: 33,
            tile_elems: 32
        })
    );
    assert!(matches!(
        prefill_dequant_scratch_plan(&content(vec![])),
        Err(ScratchError::NoProjection)
    ));
}

#[test]
fn only_quantized_block_projections_count() {
    let is = |name: &str, dtype| is_transformer_projection(&tensor(name, dtype, &[256, 256]));
    assert!(is("blk.3.attn_output.weight", GgmlType::Q5K));
    assert!(!is("blk.3.attn_output.weight", GgmlType::F16));
    assert!(!is("blk.3.attn_norm.weight", GgmlType::Q5K));
    assert!(!is("output.weight", GgmlType::Q5K));
}
