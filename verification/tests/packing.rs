use runtime::pack::{pack, unpack};

#[test]
fn pack_exact_word() {
    assert_eq!(pack(0, 0), 0);
    assert_eq!(pack(1, 0), 1);
    assert_eq!(pack(0, 1), 1 << 32);
    assert_eq!(pack(0x1000, 7), 0x1000 + (7u64 << 32));
    assert_eq!(pack(0xffff_ffff, 0xffff_ffff), u64::MAX);
}

#[test]
fn unpack_exact_pair() {
    assert_eq!(unpack(0), (0, 0));
    assert_eq!(unpack(1 << 32), (0, 1));
    assert_eq!(unpack(0x1000 + (7u64 << 32)), (0x1000, 7));
    assert_eq!(unpack(u64::MAX), (0xffff_ffff, 0xffff_ffff));
}

#[test]
fn pack_unpack_round_trip() {
    let samples: [(u64, u64); 5] = [
        (0, 0),
        (4, 7),
        (0xdead_beef, 42),
        (0xffff_ffff, 0xffff_ffff),
        (123_456_789, 987_654_321),
    ];
    for (addr, len) in samples {
        assert_eq!(unpack(pack(addr, len)), (addr, len));
    }
}
