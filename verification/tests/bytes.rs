use mumble_link::layout::{LINKED_MEM_BYTES, ONE_BITS};
use mumble_link::{LinkedMem, Position};

#[test]
fn byte_image_has_protocol_offsets() {
    let mut local = LinkedMem::new("AB", "C");
    local.set_identity("D");
    local.set_context(&[0xAA, 0xBB]);
    local.update(
        Position { position: [1, 2, 3], front: [4, 5, 6], top: [7, 8, 9] },
        Position { position: [10, 11, 12], front: [13, 14, 15], top: [16, 17, 18] },
    );
    let b = local.to_bytes();
    assert_eq!(b.len(), LINKED_MEM_BYTES);
    // version = 2, tick = 1, little-endian
    assert_eq!(&b[0..4], [2, 0, 0, 0]);
    assert_eq!(&b[4..8], [1, 0, 0, 0]);
    // avatar: nine words at offset 8
    assert_eq!(&b[8..12], [1, 0, 0, 0]);
    assert_eq!(&b[20..24], [4, 0, 0, 0]);
    assert_eq!(&b[40..44], [9, 0, 0, 0]);
    // name buffer at offset 44: "AB" zero-terminated, two bytes per unit
    assert_eq!(&b[44..50], [65, 0, 66, 0, 0, 0]);
    // camera: nine words at offset 556
    assert_eq!(&b[556..560], [10, 0, 0, 0]);
    assert_eq!(&b[588..592], [18, 0, 0, 0]);
    // identity buffer at offset 592: "D" zero-terminated
    assert_eq!(&b[592..596], [68, 0, 0, 0]);
    // context length and bytes at offsets 1104 and 1108
    assert_eq!(&b[1104..1108], [2, 0, 0, 0]);
    assert_eq!(&b[1108..1111], [0xAA, 0xBB, 0]);
    // description buffer at offset 1364: "C" zero-terminated
    assert_eq!(&b[1364..1368], [67, 0, 0, 0]);
}

#[test]
fn default_pose_words_are_unit_bits() {
    let local = LinkedMem::new("N", "D");
    let b = local.to_bytes();
    let one = ONE_BITS.to_le_bytes();
    // avatar front third word, top second word
    assert_eq!(&b[8..20], [0u8; 12]);
    assert_eq!(&b[28..32], one);
    assert_eq!(&b[36..40], one);
    // camera likewise
    assert_eq!(&b[576..580], one);
    assert_eq!(&b[584..588], one);
}

#[test]
fn zeroed_image_is_all_zero() {
    let b = LinkedMem::zeroed().to_bytes();
    assert_eq!(b.len(), LINKED_MEM_BYTES);
    assert!(b.iter().all(|&x| x == 0));
}

#[test]
fn byte_image_round_trips() {
    let mut local = LinkedMem::new("Round", "Trip");
    local.set_identity("Me");
    local.set_context(&[1, 2, 3, 4]);
    local.update(
        Position { position: [21, 22, 23], front: [24, 25, 26], top: [27, 28, 29] },
        Position::default(),
    );
    let b = local.to_bytes();
    let back = LinkedMem::from_bytes(&b);
    assert_eq!(back.ui_version, local.ui_version);
    assert_eq!(back.ui_tick, local.ui_tick);
    assert_eq!(back.avatar, local.avatar);
    assert_eq!(back.name, local.name);
    assert_eq!(back.camera, local.camera);
    assert_eq!(back.identity, local.identity);
    assert_eq!(back.context_len, local.context_len);
    assert_eq!(back.context, local.context);
    assert_eq!(back.description, local.description);
    assert_eq!(back.to_bytes(), b);
}
