use stalwart_jmap::leb128::{skip_leb128_at, Leb128};

const VALUES: [u128; 8] = [
    0,
    1,
    127,
    128,
    16383,
    16384,
    u32::MAX as u128,
    u64::MAX as u128,
];

#[test]
fn varint_round_trip_every_width() {
    for v in VALUES {
        if v <= u16::MAX as u128 {
            let mut out = Vec::new();
            (v as u16).to_leb128_bytes(&mut out);
            assert_eq!(u16::from_leb128_bytes(&out), Some((v as u16, out.len())));
        }
        if v <= u32::MAX as u128 {
            let mut out = Vec::new();
            (v as u32).to_leb128_bytes(&mut out);
            assert_eq!(u32::from_leb128_bytes(&out), Some((v as u32, out.len())));
        }
        let mut out = Vec::new();
        (v as u64).to_leb128_bytes(&mut out);
        assert_eq!(u64::from_leb128_bytes(&out), Some((v as u64, out.len())));
        let mut out = Vec::new();
        v.to_leb128_bytes(&mut out);
        assert_eq!(u128::from_leb128_bytes(&out), Some((v, out.len())));
        let mut out = Vec::new();
        (v as usize).to_leb128_bytes(&mut out);
        assert_eq!(usize::from_leb128_bytes(&out), Some((v as usize, out.len())));
    }
}

#[test]
fn varint_known_encodings() {
    let mut out = Vec::new();
    127u32.to_leb128_bytes(&mut out);
    assert_eq!(out, vec![0x7f]);
    let mut out = Vec::new();
    128u32.to_leb128_bytes(&mut out);
    assert_eq!(out, vec![0x80, 0x01]);
    let mut out = Vec::new();
    16384u32.to_leb128_bytes(&mut out);
    assert_eq!(out, vec![0x80, 0x80, 0x01]);
    let mut out = Vec::new();
    u64::MAX.to_leb128_bytes(&mut out);
    assert_eq!(out.len(), 10);
}

#[test]
fn varint_truncated_is_rejected() {
    assert_eq!(u32::from_leb128_bytes(&[]), None);
    assert_eq!(u32::from_leb128_bytes(&[0x80, 0x80]), None);
    assert_eq!(skip_leb128_at(&[0x80, 0x80], 0), None);
}

#[test]
fn varint_too_large_for_width_is_rejected() {
    let mut out = Vec::new();
    70000u32.to_leb128_bytes(&mut out);
    assert_eq!(u16::from_leb128_bytes(&out), None);
    assert_eq!(u32::from_leb128_bytes(&out), Some((70000, 3)));
    let mut out = Vec::new();
    (u64::MAX as u128 + 1).to_leb128_bytes(&mut out);
    assert_eq!(u64::from_leb128_bytes(&out), None);
}

#[test]
fn varint_read_at_position_and_skip() {
    let mut out = vec![0xff];
    300u64.to_leb128_bytes(&mut out);
    5u64.to_leb128_bytes(&mut out);
    assert_eq!(u64::from_leb128_at(&out, 1), Some((300, 2)));
    assert_eq!(skip_leb128_at(&out, 1), Some(2));
    assert_eq!(u64::from_leb128_at(&out, 3), Some((5, 1)));
}
