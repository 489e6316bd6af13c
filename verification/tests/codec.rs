use mumble_link::wide::{copy, read, utf16_units};

#[test]
fn test_wide() {
    let wide: [u16; 11] = [77, 117, 109, 98, 108, 101, 76, 105, 110, 107, 0];
    for (i, b) in "MumbleLink".bytes().enumerate() {
        assert_eq!(b as u16, wide[i]);
    }
    assert_eq!(0, wide[wide.len() - 1]);

    let mut wide = vec![1u16; 32];
    copy(&mut wide, "FooBar");
    assert_eq!(&wide[..7], [70, 111, 111, 66, 97, 114, 0]);
    assert_eq!("FooBar", read(&wide));

    let mut wide = vec![1u16; 3];
    copy(&mut wide, "ABC");
    assert_eq!(&wide[..], [65, 66, 0]);
    assert_eq!("AB", read(&wide));

    assert_eq!("BarFoo", read(&[66, 97, 114, 70, 111, 111, 0]));
}

#[test]
fn test_copy() {
    let mut wide = vec![1u16; 32];
    copy(&mut wide, "FooBar");
    assert_eq!(&wide[..7], [70, 111, 111, 66, 97, 114, 0]);

    let mut wide = vec![1u16; 3];
    copy(&mut wide, "ABC");
    assert_eq!(&wide[..], [65, 66, 0]);
}

#[test]
fn copy_empty_buffer_untouched() {
    let mut wide: Vec<u16> = Vec::new();
    copy(&mut wide, "anything");
    assert!(wide.is_empty());
}

#[test]
fn copy_exact_fit_and_terminator() {
    let mut wide = vec![9u16; 6];
    copy(&mut wide, "Hello");
    assert_eq!(&wide[..], [72, 101, 108, 108, 111, 0]);
    assert_eq!("Hello", read(&wide));
}

#[test]
fn copy_truncates_to_capacity_minus_one() {
    let mut wide = vec![7u16; 4];
    copy(&mut wide, "ABCDEF");
    assert_eq!(&wide[..], [65, 66, 67, 0]);
    assert_eq!("ABC", read(&wide));
}

#[test]
fn copy_leaves_tail_beyond_terminator() {
    let mut wide = vec![5u16; 8];
    copy(&mut wide, "Hi");
    assert_eq!(&wide[..], [72, 105, 0, 5, 5, 5, 5, 5]);
    assert_eq!("Hi", read(&wide));
}

#[test]
fn surrogate_pair_round_trip() {
    let mut wide = vec![0u16; 8];
    copy(&mut wide, "a\u{1F600}b");
    assert_eq!(&wide[..5], [0x61, 0xD83D, 0xDE00, 0x62, 0]);
    assert_eq!("a\u{1F600}b", read(&wide));
}

#[test]
fn truncation_splitting_pair_reads_replacement() {
    let mut wide = vec![0u16; 3];
    copy(&mut wide, "a\u{1F600}");
    assert_eq!(&wide[..], [0x61, 0xD83D, 0]);
    assert_eq!("a\u{FFFD}", read(&wide));
}

#[test]
fn read_stops_at_first_zero() {
    assert_eq!("AB", read(&[65, 66, 0, 67, 68]));
    assert_eq!("", read(&[0, 65, 66]));
    assert_eq!("", read(&[]));
}

#[test]
fn read_without_terminator_takes_whole_buffer() {
    assert_eq!("ABC", read(&[65, 66, 67]));
}

#[test]
fn read_lone_surrogates_are_replaced() {
    assert_eq!("\u{FFFD}x", read(&[0xD83D, 0x78, 0]));
    assert_eq!("\u{FFFD}x", read(&[0xDE00, 0x78, 0]));
    assert_eq!("x\u{FFFD}", read(&[0x78, 0xD83D]));
}

#[test]
fn copy_single_slot_holds_only_terminator() {
    let mut wide = vec![9u16; 1];
    copy(&mut wide, "ABC");
    assert_eq!(&wide[..], [0]);
    assert_eq!("", read(&wide));
}

#[test]
fn utf16_units_encodes_pairs() {
    assert_eq!(utf16_units("a\u{E9}\u{1F600}"), [0x61, 0xE9, 0xD83D, 0xDE00]);
    assert_eq!(utf16_units(""), Vec::<u16>::new());
}
