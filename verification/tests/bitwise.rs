use rustwav::bitwise::{align, shift_data_to_back, shift_data_to_front, BitwiseData};

fn bits_of(data: &[u8], n: usize) -> Vec<bool> {
    (0..n).map(|i| (data[i / 8] >> (i % 8)) & 1 == 1).collect()
}

#[test]
fn align_rounds_up_to_multiples() {
    assert_eq!(align(0, 8), 0);
    assert_eq!(align(1, 8), 8);
    assert_eq!(align(8, 8), 8);
    assert_eq!(align(9, 8), 16);
    assert_eq!(align(13, 1), 13);
    assert_eq!(align(10, 4), 12);
}

#[test]
fn shift_to_front_by_whole_bytes() {
    assert_eq!(shift_data_to_front(&vec![1, 2, 3], 8, 24), vec![2, 3]);
    assert_eq!(shift_data_to_front(&vec![1, 2, 3], 0, 24), vec![1, 2, 3]);
    assert_eq!(shift_data_to_front(&vec![1, 2, 3], 24, 24), Vec::<u8>::new());
}

#[test]
fn shift_to_front_within_bytes() {
    assert_eq!(shift_data_to_front(&vec![0b1010_1100, 0b0000_0011], 2, 16), vec![0b1110_1011, 0b0000_0000]);
    assert_eq!(shift_data_to_front(&vec![0xFF, 0x01], 4, 9), vec![0x1F]);
}

#[test]
fn shift_to_back_inserts_zero_bits() {
    assert_eq!(shift_data_to_back(&vec![0xFF], 8, 8), vec![0x00, 0xFF]);
    assert_eq!(shift_data_to_back(&vec![0xFF], 4, 8), vec![0xF0, 0x0F]);
    assert_eq!(shift_data_to_back(&vec![0x01], 0, 8), vec![0x01]);
}

#[test]
fn new_clears_bits_past_the_end() {
    let d = BitwiseData::new(&[0xFF, 0xFF, 0xFF], 12);
    assert_eq!(d.data, vec![0xFF, 0x0F]);
    assert_eq!(d.get_total_bits(), 12);
    assert_eq!(d.get_total_bytes(), 2);
}

#[test]
fn from_bytes_keeps_all_bits() {
    let d = BitwiseData::from_bytes(&[1, 2]);
    assert_eq!(d.total_bits, 16);
    assert_eq!(d.data, vec![1, 2]);
    assert!(d.is_aligned_size());
    assert_eq!(BitwiseData::calc_total_bytes(17), 3);
}

#[test]
fn split_parts_hold_the_two_halves() {
    let d = BitwiseData::new(&[0b1011_0110, 0b0000_0101], 11);
    let (a, b) = d.split(3);
    assert_eq!(a.total_bits, 3);
    assert_eq!(a.data, vec![0b0000_0110]);
    assert_eq!(b.total_bits, 8);
    assert_eq!(bits_of(&b.data, 8), bits_of(&[0b1011_0110, 0b0000_0101], 11)[3..].to_vec());
}

#[test]
fn split_then_concat_gives_back_the_bits() {
    let d = BitwiseData::new(&[0x5A, 0xC3, 0x3C], 21);
    for at in 0..=21 {
        let (mut a, b) = d.split(at);
        a.concat(&b);
        assert_eq!(a.total_bits, 21);
        assert_eq!(bits_of(&a.data, 21), bits_of(&d.data, 21));
    }
}

#[test]
fn concat_joins_without_gap() {
    let mut a = BitwiseData::new(&[0b0000_0101], 3);
    let b = BitwiseData::new(&[0b0000_0011], 2);
    a.concat(&b);
    assert_eq!(a.total_bits, 5);
    assert_eq!(a.into_bytes(), vec![0b0001_1101]);
}

#[test]
fn fit_and_shrink_resize_the_bytes() {
    let mut d = BitwiseData { data: vec![0xFF], total_bits: 20 };
    d.fit_to_aligned_size();
    assert_eq!(d.data, vec![0xFF, 0, 0]);
    let mut e = BitwiseData { data: vec![0xFF, 0xFF, 0xFF], total_bits: 4 };
    e.shrink_to_fit();
    assert_eq!(e.data, vec![0x0F]);
}

#[test]
fn default_is_empty() {
    let d = BitwiseData::default();
    assert_eq!(d.total_bits, 0);
    assert!(d.data.is_empty());
}

#[test]
fn shrink_to_fit_twice_is_once() {
    let mut d = BitwiseData { data: vec![0xFF, 0xFF, 0xFF], total_bits: 12 };
    d.shrink_to_fit();
    assert_eq!(d.data, vec![0xFF, 0x0F]);
    let once = d.data.clone();
    d.shrink_to_fit();
    assert_eq!(d.data, once);
    assert_eq!(d.total_bits, 12);
}
