use shua_struct::{BinaryField, BitBuffer, FieldError, LsbBits, MsbBits, Options};

fn opts(size: usize, align: usize, sub_align: u8) -> Option<Options> {
    Some(Options::new(String::from("field"), size, align, sub_align))
}

fn bits_of<B: BitBuffer>(b: &B) -> Vec<bool> {
    let mut out = Vec::new();
    for i in 0..b.bit_len() {
        out.push(b.bit_at(i));
    }
    out
}

fn lsb_from(bits: &[bool]) -> LsbBits {
    let mut b = LsbBits::empty();
    for &x in bits {
        b.push_bit(x);
    }
    b
}

fn lsb_bytes(bytes: &[u8]) -> Vec<bool> {
    let mut out = Vec::new();
    for &byte in bytes {
        for i in 0..8 {
            out.push((byte >> i) & 1 == 1);
        }
    }
    out
}

#[test]
fn array_of_bytes_pads_each_element_to_sixteen_bits() {
    let v: [u8; 3] = [1, 2, 3];
    let mut o = opts(0, 16, 0);
    let b = <[u8; 3] as BinaryField<LsbBits>>::build(&v, &mut o).unwrap();
    assert_eq!(b.bit_len(), 48);
    assert_eq!(bits_of(&b), lsb_bytes(&[1, 0, 2, 0, 3, 0]));
    let mut o = opts(0, 16, 0);
    let r = <[u8; 3] as BinaryField<LsbBits>>::parse(&b, 0, &mut o).unwrap();
    assert_eq!(r, ([1, 2, 3], 48));
}

#[test]
fn list_of_five_booleans_round_trips() {
    let v = vec![true, false, true, true, false];
    let mut o = opts(5, 0, 0);
    let b = <Vec<bool> as BinaryField<LsbBits>>::build(&v, &mut o).unwrap();
    assert_eq!(bits_of(&b), vec![true, false, true, true, false]);
    let mut o = opts(5, 0, 0);
    let r = <Vec<bool> as BinaryField<LsbBits>>::parse(&b, 0, &mut o).unwrap();
    assert_eq!(r, (v, 5));
}

#[test]
fn list_without_descriptor_or_size_fails() {
    let b = lsb_from(&[true; 8]);
    let mut none: Option<Options> = None;
    assert_eq!(
        <Vec<bool> as BinaryField<LsbBits>>::parse(&b, 0, &mut none),
        Err(FieldError::MissingOptions)
    );
    let mut zero = opts(0, 0, 0);
    assert_eq!(
        <Vec<bool> as BinaryField<LsbBits>>::parse(&b, 0, &mut zero),
        Err(FieldError::MissingSize)
    );
    let v = vec![true];
    let mut none: Option<Options> = None;
    assert!(matches!(
        <Vec<bool> as BinaryField<LsbBits>>::build(&v, &mut none),
        Err(FieldError::MissingOptions)
    ));
    let mut zero = opts(0, 0, 0);
    assert!(matches!(
        <Vec<bool> as BinaryField<LsbBits>>::build(&v, &mut zero),
        Err(FieldError::MissingSize)
    ));
}

#[test]
fn u32_from_sixteen_bits_is_short() {
    let b = lsb_from(&[false; 16]);
    let mut o: Option<Options> = None;
    assert_eq!(
        <u32 as BinaryField<LsbBits>>::parse(&b, 0, &mut o),
        Err(FieldError::InsufficientBits { needed: 32, got: 16 })
    );
}

#[test]
fn bool_from_empty_is_short() {
    let b = LsbBits::empty();
    let mut o: Option<Options> = None;
    assert_eq!(
        <bool as BinaryField<LsbBits>>::parse(&b, 0, &mut o),
        Err(FieldError::InsufficientBits { needed: 1, got: 0 })
    );
}

#[test]
fn countdown_pads_a_list_once_after_the_nth_element() {
    let v: Vec<u8> = vec![0xff, 0xff, 0xff, 0xff];
    let mut o = opts(4, 32, 2);
    let b = <Vec<u8> as BinaryField<LsbBits>>::build(&v, &mut o).unwrap();
    assert_eq!(b.bit_len(), 48);
    assert_eq!(bits_of(&b), lsb_bytes(&[0xff, 0xff, 0, 0, 0xff, 0xff]));
    assert_eq!(o.as_ref().unwrap().sub_align, 0);
    let mut o = opts(4, 32, 2);
    let r = <Vec<u8> as BinaryField<LsbBits>>::parse(&b, 0, &mut o).unwrap();
    assert_eq!(r, (v, 48));
}

#[test]
fn list_ignores_plain_alignment() {
    let v: Vec<u8> = vec![7, 9];
    let mut o = opts(2, 32, 0);
    let b = <Vec<u8> as BinaryField<LsbBits>>::build(&v, &mut o).unwrap();
    assert_eq!(bits_of(&b), lsb_bytes(&[7, 9]));
}

#[test]
fn array_without_alignment_is_dense() {
    let v: [u16; 2] = [0x0102, 0x0304];
    let mut o: Option<Options> = None;
    let b = <[u16; 2] as BinaryField<LsbBits>>::build(&v, &mut o).unwrap();
    assert_eq!(bits_of(&b), lsb_bytes(&[2, 1, 4, 3]));
    let r = <[u16; 2] as BinaryField<LsbBits>>::parse(&b, 0, &mut o).unwrap();
    assert_eq!(r, (v, 32));
}

#[test]
fn get_align_fires_on_the_nth_query_only() {
    let mut o = Options::new(String::from("x"), 0, 24, 3);
    assert_eq!(o.get_align(), None);
    assert_eq!(o.get_align(), None);
    assert_eq!(o.get_align(), Some(24));
    assert_eq!(o.get_align(), None);
    assert_eq!(o.get_align(), None);
    let mut z = Options::new(String::from("z"), 0, 24, 0);
    assert_eq!(z.get_align(), None);
    assert_eq!(z.sub_align, 0);
}

#[test]
fn orderings_place_bits_differently() {
    let v: u16 = 0x1234;
    let mut o: Option<Options> = None;
    let lsb = <u16 as BinaryField<LsbBits>>::build(&v, &mut o).unwrap();
    let msb = <u16 as BinaryField<MsbBits>>::build(&v, &mut o).unwrap();
    let lsb_bits = bits_of(&lsb);
    let msb_bits = bits_of(&msb);
    assert_eq!(lsb_bits.len(), 16);
    assert_eq!(msb_bits.len(), 16);
    for i in 0..16 {
        assert_eq!(lsb_bits[i], (v >> i) & 1 == 1);
        assert_eq!(msb_bits[i], (v >> (15 - i)) & 1 == 1);
    }
    assert_eq!(<u16 as BinaryField<MsbBits>>::parse(&msb, 0, &mut o), Ok((v, 16)));
}

#[test]
fn signed_values_round_trip_in_both_orderings() {
    let mut o: Option<Options> = None;
    let a = <i16 as BinaryField<LsbBits>>::build(&-2, &mut o).unwrap();
    assert_eq!(<i16 as BinaryField<LsbBits>>::parse(&a, 0, &mut o), Ok((-2, 16)));
    let b = <i64 as BinaryField<MsbBits>>::build(&i64::MIN, &mut o).unwrap();
    assert_eq!(b.bit_len(), 64);
    assert!(b.bit_at(0));
    assert_eq!(<i64 as BinaryField<MsbBits>>::parse(&b, 0, &mut o), Ok((i64::MIN, 64)));
    let c = <i8 as BinaryField<LsbBits>>::build(&-128, &mut o).unwrap();
    assert_eq!(bits_of(&c), lsb_bytes(&[0x80]));
}

#[test]
fn widths_are_exact_for_every_primitive() {
    let mut o: Option<Options> = None;
    assert_eq!(<bool as BinaryField<LsbBits>>::build(&true, &mut o).unwrap().bit_len(), 1);
    assert_eq!(<u8 as BinaryField<LsbBits>>::build(&0, &mut o).unwrap().bit_len(), 8);
    assert_eq!(<u16 as BinaryField<LsbBits>>::build(&1, &mut o).unwrap().bit_len(), 16);
    assert_eq!(<u32 as BinaryField<MsbBits>>::build(&u32::MAX, &mut o).unwrap().bit_len(), 32);
    assert_eq!(<u64 as BinaryField<LsbBits>>::build(&5, &mut o).unwrap().bit_len(), 64);
    assert_eq!(<i32 as BinaryField<MsbBits>>::build(&-1, &mut o).unwrap().bit_len(), 32);
}

#[test]
fn parse_starts_at_the_given_index() {
    let mut bits = vec![true, true, true];
    bits.extend(lsb_bytes(&[0xa5]));
    let b = lsb_from(&bits);
    let mut o: Option<Options> = None;
    assert_eq!(<u8 as BinaryField<LsbBits>>::parse(&b, 3, &mut o), Ok((0xa5, 8)));
    assert_eq!(
        <u8 as BinaryField<LsbBits>>::parse(&b, 4, &mut o),
        Err(FieldError::InsufficientBits { needed: 8, got: 7 })
    );
}

#[test]
fn padding_past_the_end_is_short() {
    let b = lsb_from(&lsb_bytes(&[1, 0, 2]));
    let mut o = opts(0, 16, 0);
    assert_eq!(
        <[u8; 2] as BinaryField<LsbBits>>::parse(&b, 0, &mut o),
        Err(FieldError::InsufficientBits { needed: 8, got: 0 })
    );
}

#[test]
fn nested_lists_share_the_descriptor() {
    let v: Vec<Vec<bool>> = vec![vec![true, false], vec![false, true]];
    let mut o = opts(2, 8, 0);
    let b = <Vec<Vec<bool>> as BinaryField<MsbBits>>::build(&v, &mut o).unwrap();
    assert_eq!(bits_of(&b), vec![true, false, false, true]);
    let mut o = opts(2, 8, 0);
    assert_eq!(<Vec<Vec<bool>> as BinaryField<MsbBits>>::parse(&b, 0, &mut o), Ok((v, 4)));
}
