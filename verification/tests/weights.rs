use grout::dequant::GgmlType;
use grout::weights::{
    concat_weight_rows_2d, tensor_shape_usize, DeviceBuffer, MatrixWeight, RowConcat, RowCopy,
    Weight, WeightError,
};

fn buffer(id: usize, shape: &[i32]) -> DeviceBuffer {
    DeviceBuffer {
        id,
        shape: shape.to_vec(),
        size: shape.iter().product::<i32>() as usize,
    }
}

fn half(id: usize, rows: i32, cols: i32) -> Weight {
    Weight::half(buffer(id, &[rows, cols])).unwrap()
}

fn q6k(rows: usize, cols: usize) -> Weight {
    let bytes = rows * cols / 256 * 210;
    Weight::quantized(GgmlType::Q6K, buffer(9, &[bytes as i32]), vec![rows, cols]).unwrap()
}

#[test]
fn weights_know_their_shape_and_size() {
    let w = half(1, 3, 5);
    assert_eq!((w.rows(), w.cols(), w.elem_count()), (3, 5, 15));
    assert!(!w.is_quantized());
    assert_eq!(w.as_f16().unwrap().id, 1);
    let w = q6k(2, 256);
    assert!(w.is_quantized());
    assert_eq!(w.dtype(), GgmlType::Q6K);
    let (t, q) = w.as_quantized().unwrap();
    assert_eq!(q.resident_bytes(t), Ok(420));
    assert_eq!(tensor_shape_usize(&[2, -1]), Err(WeightError::NegativeDim));
}

#[test]
fn wrong_buffers_make_no_weight() {
    let make = |dtype, bytes, shape: &[usize]| {
        Weight::quantized(dtype, buffer(1, &[bytes]), shape.to_vec())
    };
    assert_eq!(
        make(GgmlType::Q6K, 209, &[1, 256]).unwrap_err(),
        WeightError::BufferShape
    );
    assert_eq!(
        make(GgmlType::Q6K, 210, &[256]).unwrap_err(),
        WeightError::Rank { rank: 1 }
    );
    assert_eq!(
        make(GgmlType::Q6K, 210, &[1, 255]).unwrap_err(),
        WeightError::PartialBlock {
            elems: 255,
            dtype: GgmlType::Q6K
        }
    );
    assert_eq!(
        make(GgmlType::F32, 4, &[1, 1]).unwrap_err(),
        WeightError::Unsupported {
            dtype: GgmlType::F32
        }
    );
    assert_eq!(
        make(GgmlType::Q6K, 210, &[usize::MAX, 2]).unwrap_err(),
        WeightError::ElementOverflow
    );
}

#[test]
fn split_weights_take_twice_their_bytes() {
    let w = Weight::q8_0_soa(
        buffer(1, &[68]),
        buffer(2, &[2, 32]),
        buffer(3, &[2, 1]),
        vec![2, 32],
    )
    .unwrap();
    let (t, q) = w.as_quantized().unwrap();
    assert_eq!(q.resident_bytes(t), Ok(136));
    assert!(q.q8_0_soa().is_some());
    assert_eq!(q.native_data().unwrap().id, 1);
}

#[test]
fn stacks_have_the_rows_of_their_parts() {
    let m = MatrixWeight::row_concat(vec![q6k(2, 256), half(1, 3, 256)]).unwrap();
    assert_eq!(m.shape(), &[5, 256]);
    assert!(m.has_quantized());
    assert!(!m.is_f16_single());
    assert_eq!(m.max_quantized_elems(), Some(512));
    assert_eq!(
        MatrixWeight::row_concat(vec![]).unwrap_err(),
        WeightError::NoParts
    );
    assert_eq!(
        MatrixWeight::row_concat(vec![half(1, 2, 4), half(2, 2, 5)]).unwrap_err(),
        WeightError::Columns {
            got: 5,
            expected: 4
        }
    );
}

#[test]
fn slices_take_whole_parts() {
    let m = MatrixWeight::row_concat(vec![q6k(2, 256), q6k(3, 256), q6k(4, 256)]).unwrap();
    let s = m.row_parts_for_slice(2, 7).unwrap();
    assert_eq!(
        s.iter().map(|(o, w)| (*o, w.rows())).collect::<Vec<_>>(),
        vec![(0, 3), (3, 4)]
    );
    assert_eq!(
        m.row_parts_for_slice(1, 3).unwrap_err(),
        WeightError::SliceCuts { part: 0 }
    );
    assert!(matches!(
        m.row_parts_for_slice(8, 2).unwrap_err(),
        WeightError::SliceRange { end: 10, rows: 9 }
    ));
}

#[test]
fn unquantized_matrices_are_merged() {
    let ms = vec![
        MatrixWeight::single(half(7, 2, 4)),
        MatrixWeight::single(half(8, 3, 4)),
    ];
    match concat_weight_rows_2d(ms).unwrap() {
        RowConcat::Merge { rows, cols, copies } => {
            assert_eq!((rows, cols), (5, 4));
            assert_eq!(
                copies,
                vec![
                    RowCopy {
                        source: 7,
                        offset: 0,
                        bytes: 16
                    },
                    RowCopy {
                        source: 8,
                        offset: 16,
                        bytes: 24
                    },
                ]
            );
        }
        other => panic!("{other:?}"),
    }
}

#[test]
fn quantized_matrices_stay_parts() {
    let ms = vec![
        MatrixWeight::single(half(7, 2, 256)),
        MatrixWeight::single(q6k(3, 256)),
    ];
    match concat_weight_rows_2d(ms).unwrap() {
        RowConcat::Parts { weight } => {
            assert_eq!(weight.shape(), &[5, 256]);
            assert_eq!(weight.parts().len(), 2);
            assert!(!weight.parts()[0].is_quantized());
        }
        other => panic!("{other:?}"),
    }
    assert_eq!(
        concat_weight_rows_2d(vec![]).unwrap_err(),
        WeightError::NoParts
    );
    let ms = vec![
        MatrixWeight::single(half(7, 2, 4)),
        MatrixWeight::single(half(8, 2, 6)),
    ];
    assert_eq!(
        concat_weight_rows_2d(ms).unwrap_err(),
        WeightError::Columns {
            got: 6,
            expected: 4
        }
    );
}
