use shua_struct::record::{build_field, parse_field};
use shua_struct::{BitBuffer, FieldError, LsbBits};

fn bits_of<B: BitBuffer>(b: &B) -> Vec<bool> {
    let mut out = Vec::new();
    for i in 0..b.bit_len() {
        out.push(b.bit_at(i));
    }
    out
}

fn lsb_bytes(bytes: &[u8]) -> Vec<bool> {
    let mut out = Vec::new();
    for &byte in bytes {
        for i in 0..8 {
            out.push((byte >> i) & 1 == 1);
        }
    }
    out
}

#[test]
fn record_fields_build_and_parse_in_order() {
    let flag = true;
    let count: u8 = 2;
    let items: Vec<u8> = vec![0x11, 0x22];
    let mut bv = LsbBits::empty();
    let f: LsbBits = build_field(&flag, String::from("flag"), 0, 8, 0).unwrap();
    bv.append_bits(&f);
    let c: LsbBits = build_field(&count, String::from("count"), 0, 0, 0).unwrap();
    bv.append_bits(&c);
    let it: LsbBits = build_field(&items, String::from("items"), count as usize, 0, 0).unwrap();
    bv.append_bits(&it);
    assert_eq!(bits_of(&bv), lsb_bytes(&[1, 2, 0x11, 0x22]));

    let (f2, l1) = parse_field::<LsbBits, bool>(&bv, 0, String::from("flag"), 0, 8, 0).unwrap();
    assert_eq!((f2, l1), (true, 8));
    let (c2, l2) = parse_field::<LsbBits, u8>(&bv, l1, String::from("count"), 0, 0, 0).unwrap();
    assert_eq!((c2, l2), (2, 8));
    let (i2, l3) =
        parse_field::<LsbBits, Vec<u8>>(&bv, l1 + l2, String::from("items"), c2 as usize, 0, 0)
            .unwrap();
    assert_eq!((i2, l3), (items, 16));
}

#[test]
fn field_with_countdown_skips_trailing_padding() {
    let v: Vec<u8> = vec![1, 2, 3];
    let b: LsbBits = build_field(&v, String::from("table"), 3, 24, 1).unwrap();
    assert_eq!(b.bit_len(), 40);
    assert_eq!(bits_of(&b), lsb_bytes(&[1, 0, 0, 2, 3]));
    let r = parse_field::<LsbBits, Vec<u8>>(&b, 0, String::from("table"), 3, 24, 1).unwrap();
    assert_eq!(r, (v, 40));
}

#[test]
fn field_trailing_padding_needs_the_bits() {
    let mut b = LsbBits::empty();
    for bit in lsb_bytes(&[9]) {
        b.push_bit(bit);
    }
    assert_eq!(
        parse_field::<LsbBits, u8>(&b, 0, String::from("x"), 0, 16, 0),
        Err(FieldError::InsufficientBits { needed: 8, got: 0 })
    );
    let built: LsbBits = build_field(&9u8, String::from("x"), 0, 16, 0).unwrap();
    assert_eq!(bits_of(&built), lsb_bytes(&[9, 0]));
}
