use grout::dequant::{
    dequantize_to_f16, dequantize_to_f32, get_scale_min_k4, DequantError, Element, GgmlType,
    HalfElement,
};

fn half(bits: u16) -> f32 {
    let sign = if bits & 0x8000 != 0 { -1.0f32 } else { 1.0 };
    let exp = (bits >> 10) & 31;
    let frac = (bits & 1023) as f32;
    if exp == 0 {
        sign * frac * 2f32.powi(-24)
    } else {
        sign * (1024.0 + frac) * 2f32.powi(exp as i32 - 25)
    }
}

fn value(e: &Element) -> f32 {
    match *e {
        Element::Single { bits } => f32::from_bits(bits),
        Element::Half { bits } => half(bits),
        Element::Brain { bits } => f32::from_bits((bits as u32) << 16),
        Element::Double { bits } => f64::from_bits(bits) as f32,
        Element::Scaled { d, q } => half(d) * q as f32,
        Element::ScaledMin {
            d,
            scale,
            min,
            min_scale,
            q,
        } => half(d) * scale as f32 * q as f32 - half(min) * min_scale as f32,
        Element::ScaledSigned { d, scale, q } => half(d) * scale as f32 * q as f32,
    }
}

fn values(dtype: GgmlType, data: &[u8], n: usize) -> Vec<f32> {
    dequantize_to_f32(dtype, data, n)
        .unwrap()
        .iter()
        .map(value)
        .collect()
}

fn bytes(n: usize) -> Vec<u8> {
    let mut x = 12345u32;
    (0..n)
        .map(|_| {
            x = x.wrapping_mul(1664525).wrapping_add(1013904223);
            (x >> 24) as u8
        })
        .collect()
}

fn scale_min(j: usize, q: &[u8]) -> (u8, u8) {
    if j < 4 {
        (q[j] & 63, q[j + 4] & 63)
    } else {
        (
            (q[j + 4] & 0xf) | ((q[j - 4] >> 6) << 4),
            (q[j + 4] >> 4) | ((q[j] >> 6) << 4),
        )
    }
}

#[test]
fn type_ids_round_trip() {
    let mut known = 0;
    for id in 0..40u32 {
        match GgmlType::from_u32(id) {
            Ok(t) => {
                assert_eq!(t.to_u32(), id);
                known += 1;
            }
            Err(e) => assert_eq!(e, DequantError::UnknownType { id }),
        }
    }
    assert_eq!(known, 15);
    assert_eq!(GgmlType::from_u32(12), Ok(GgmlType::Q4K));
    assert_eq!(GgmlType::from_u32(30), Ok(GgmlType::BF16));
}

#[test]
fn blocks_have_their_sizes() {
    assert_eq!(
        (GgmlType::Q8_0.block_size(), GgmlType::Q8_0.type_size()),
        (32, 34)
    );
    assert_eq!(
        (GgmlType::Q4K.block_size(), GgmlType::Q4K.type_size()),
        (256, 144)
    );
    assert_eq!(
        (GgmlType::Q5K.block_size(), GgmlType::Q5K.type_size()),
        (256, 176)
    );
    assert_eq!(
        (GgmlType::Q6K.block_size(), GgmlType::Q6K.type_size()),
        (256, 210)
    );
    assert!(GgmlType::Q5K.is_supported_for_phase1());
    assert!(!GgmlType::Q4_0.is_supported_for_phase1());
}

#[test]
fn scales_of_super_blocks_are_unpacked() {
    let q = bytes(12);
    for j in 0..8 {
        assert_eq!(get_scale_min_k4(j, &q), scale_min(j, &q));
    }
}

#[test]
fn plain_elements_keep_their_value() {
    let x = [1.5f32, -2.25, 0.0];
    let data: Vec<u8> = x.iter().flat_map(|v| v.to_le_bytes()).collect();
    assert_eq!(values(GgmlType::F32, &data, 3), x);
    let data = [0x00, 0x3c, 0x00, 0xc0];
    assert_eq!(values(GgmlType::F16, &data, 2), [1.0, -2.0]);
}

#[test]
fn q8_0_blocks_are_unpacked() {
    let mut b = bytes(68);
    b[0] = 0x00;
    b[1] = 0x38; // 0.5
    b[34] = 0x00;
    b[35] = 0x3c; // 1.0
    let got = values(GgmlType::Q8_0, &b, 64);
    for i in 0..64 {
        let block = i / 32;
        let d = if block == 0 { 0.5 } else { 1.0 };
        assert_eq!(got[i], d * (b[block * 34 + 2 + i % 32] as i8) as f32);
    }
}

#[test]
fn q4k_blocks_are_unpacked() {
    let mut b = bytes(144);
    b[..4].copy_from_slice(&[0x00, 0x3c, 0x00, 0x38]);
    let got = values(GgmlType::Q4K, &b, 256);
    for n in 0..256 {
        let (group, in64) = (n / 64, n % 64);
        let (sc, m) = scale_min(group * 2 + in64 / 32, &b[4..16]);
        let qb = b[16 + group * 32 + in64 % 32];
        let q = if in64 < 32 { qb & 0xf } else { qb >> 4 };
        assert_eq!(got[n], sc as f32 * q as f32 - 0.5 * m as f32, "{}", n);
    }
}

#[test]
fn q5k_blocks_are_unpacked() {
    let mut b = bytes(176);
    b[..4].copy_from_slice(&[0x00, 0x3c, 0x00, 0x38]);
    let got = values(GgmlType::Q5K, &b, 256);
    for n in 0..256 {
        let (group, in64) = (n / 64, n % 64);
        let (sc, m) = scale_min(group * 2 + in64 / 32, &b[4..16]);
        let idx = in64 % 32;
        let qb = b[48 + group * 32 + idx];
        let low = in64 < 32;
        let base = if low { qb & 0xf } else { qb >> 4 };
        let mask = if low { 1u8 << (2 * group) } else { 2u8 << (2 * group) };
        let q = base + if b[16 + idx] & mask != 0 { 16 } else { 0 };
        assert_eq!(got[n], sc as f32 * q as f32 - 0.5 * m as f32, "{}", n);
    }
}

#[test]
fn q6k_blocks_are_unpacked() {
    let mut b = bytes(210);
    b[208..].copy_from_slice(&[0x00, 0x3c]);
    let got = values(GgmlType::Q6K, &b, 256);
    for n in 0..256 {
        let (idx, within) = (n / 128, n % 128);
        let ql = &b[64 * idx..];
        let qh = &b[128 + 32 * idx..];
        let sc = &b[192 + 8 * idx..];
        let l = within % 32;
        let q = match within / 32 {
            0 => (ql[l] & 0xf) | ((qh[l] & 3) << 4),
            1 => (ql[l + 32] & 0xf) | (((qh[l] >> 2) & 3) << 4),
            2 => (ql[l] >> 4) | (((qh[l] >> 4) & 3) << 4),
            _ => (ql[l + 32] >> 4) | (((qh[l] >> 6) & 3) << 4),
        };
        let scale = sc[l / 16 + 2 * (within / 32)] as i8;
        assert_eq!(got[n], scale as f32 * (q as i32 - 32) as f32, "{}", n);
    }
}

#[test]
fn bad_blocks_are_refused() {
    assert_eq!(
        dequantize_to_f32(GgmlType::Q8_0, &[], 33).unwrap_err(),
        DequantError::PartialBlock {
            elem_count: 33,
            block_size: 32
        }
    );
    assert_eq!(
        dequantize_to_f32(GgmlType::Q8_0, &[0; 33], 32).unwrap_err(),
        DequantError::ByteLength {
            elem_count: 32,
            got: 33
        }
    );
    assert_eq!(
        dequantize_to_f32(GgmlType::Q4_0, &[0; 18], 32).unwrap_err(),
        DequantError::Unsupported {
            dtype: GgmlType::Q4_0
        }
    );
}

#[test]
fn half_precision_data_keeps_its_bits() {
    let data = [0x00, 0x3c, 0xff, 0x7f, 0x01, 0x80];
    let kept: Vec<HalfElement> = [0x3c00, 0x7fff, 0x8001]
        .into_iter()
        .map(|bits| HalfElement::Kept { bits })
        .collect();
    assert_eq!(dequantize_to_f16(GgmlType::F16, &data, 3).unwrap(), kept);
    for dtype in [
        GgmlType::F32,
        GgmlType::Q8_0,
        GgmlType::Q4K,
        GgmlType::Q5K,
        GgmlType::Q6K,
    ] {
        let data = bytes(256 / dtype.block_size() * dtype.type_size());
        let rounded: Vec<HalfElement> = dequantize_to_f32(dtype, &data, 256)
            .unwrap()
            .into_iter()
            .map(|of| HalfElement::Rounded { of })
            .collect();
        assert_eq!(dequantize_to_f16(dtype, &data, 256).unwrap(), rounded);
    }
    for (dtype, len, n) in [
        (GgmlType::F16, 5, 3),
        (GgmlType::Q8_0, 34, 31),
        (GgmlType::Q4_0, 18, 32),
    ] {
        assert_eq!(
            dequantize_to_f16(dtype, &bytes(len), n).unwrap_err(),
            dequantize_to_f32(dtype, &bytes(len), n).unwrap_err()
        );
    }
}
