use runtime::state::{test_data_in, Store};

#[test]
fn read_fresh_is_empty() {
    let store = Store::new();
    assert_eq!(store.storage(b"anything"), Vec::<u8>::new());
    assert_eq!(store.storage(b""), Vec::<u8>::new());
    assert_eq!(store.storage(b"\0code"), Vec::<u8>::new());
}

#[test]
fn write_read_round_trip() {
    let mut store = Store::new();
    store.set_storage(b"key", b"value");
    assert_eq!(store.storage(b"key"), b"value".to_vec());
}

#[test]
fn write_leaves_other_keys_unchanged() {
    let mut store = Store::new();
    store.set_storage(b"one", b"first");
    store.set_storage(b"two", b"second");
    assert_eq!(store.storage(b"one"), b"first".to_vec());
    assert_eq!(store.storage(b"two"), b"second".to_vec());
    assert_eq!(store.storage(b"three"), Vec::<u8>::new());
}

#[test]
fn overwrite_takes_last_value() {
    let mut store = Store::new();
    store.set_storage(b"key", b"old");
    store.set_storage(b"key", b"new");
    assert_eq!(store.storage(b"key"), b"new".to_vec());
}

#[test]
fn code_round_trip() {
    let mut store = Store::new();
    assert_eq!(store.code(), Vec::<u8>::new());
    store.set_code(b"wasm blob");
    assert_eq!(store.code(), b"wasm blob".to_vec());
    assert_eq!(store.storage(b"\0code"), b"wasm blob".to_vec());
}

#[test]
fn validator_slot_round_trip() {
    let mut store = Store::new();
    store.set_validator(0, b"alpha");
    store.set_validator(1, b"beta");
    store.set_validator(300, b"gamma");
    assert_eq!(store.validator(0), b"alpha".to_vec());
    assert_eq!(store.validator(1), b"beta".to_vec());
    assert_eq!(store.validator(300), b"gamma".to_vec());
    assert_eq!(store.validator(2), Vec::<u8>::new());
}

#[test]
fn validator_zero_key_is_bare_prefix() {
    let mut store = Store::new();
    store.set_validator(0, b"alpha");
    assert_eq!(store.storage(b"\0validator"), b"alpha".to_vec());
    store.set_validator(1, b"beta");
    assert_eq!(store.storage(b"\0validator\x01"), b"beta".to_vec());
}

#[test]
fn validator_count_starts_at_zero() {
    let store = Store::new();
    assert_eq!(store.validator_count(), 0);
}

#[test]
fn set_validator_count_round_trip() {
    let mut store = Store::new();
    store.set_validator_count(7);
    assert_eq!(store.validator_count(), 7);
    assert_eq!(store.storage(b"\0validator_count"), vec![7]);
}

#[test]
fn shrinking_count_clears_out_of_range_slots() {
    let mut store = Store::new();
    store.set_validator_count(3);
    store.set_validator(0, b"a");
    store.set_validator(1, b"b");
    store.set_validator(2, b"c");
    store.set_validator_count(1);
    assert_eq!(store.validator_count(), 1);
    assert_eq!(store.validator(0), b"a".to_vec());
    assert_eq!(store.validator(1), Vec::<u8>::new());
    assert_eq!(store.validator(2), Vec::<u8>::new());
}

#[test]
fn growing_count_leaves_new_slots_empty() {
    let mut store = Store::new();
    store.set_validator(0, b"a");
    store.set_validator_count(1);
    store.set_validator_count(4);
    assert_eq!(store.validator_count(), 4);
    assert_eq!(store.validator(0), b"a".to_vec());
    assert_eq!(store.validator(1), Vec::<u8>::new());
    assert_eq!(store.validator(2), Vec::<u8>::new());
    assert_eq!(store.validator(3), Vec::<u8>::new());
}

#[test]
fn set_validators_then_get_returns_same_in_order() {
    let mut store = Store::new();
    let vs = vec![b"a".to_vec(), b"b".to_vec(), b"c".to_vec()];
    store.set_validators(&vs);
    assert_eq!(store.validator_count(), 3);
    assert_eq!(store.validators(), vs);
}

#[test]
fn set_validators_shrinks_previous_set() {
    let mut store = Store::new();
    let long = vec![b"a".to_vec(), b"b".to_vec(), b"c".to_vec()];
    store.set_validators(&long);
    let short = vec![b"x".to_vec()];
    store.set_validators(&short);
    assert_eq!(store.validator_count(), 1);
    assert_eq!(store.validators(), short);
    assert_eq!(store.validator(1), Vec::<u8>::new());
    assert_eq!(store.validator(2), Vec::<u8>::new());
}

#[test]
fn end_to_end_scenario() {
    let mut store = Store::new();
    store.set_code(b"X");
    assert_eq!(store.code(), b"X".to_vec());
    store.set_validators(&vec![b"v0".to_vec(), b"v1".to_vec()]);
    assert_eq!(store.validator_count(), 2);
    assert_eq!(store.validators(), vec![b"v0".to_vec(), b"v1".to_vec()]);
    store.set_validator_count(1);
    assert_eq!(store.validator(1), Vec::<u8>::new());
    assert_eq!(store.validator_count(), 1);
}

#[test]
fn test_data_in_flow() {
    let mut store = Store::new();
    store.set_code(b"old code");
    store.set_validators(&vec![b"v0".to_vec()]);
    let reply = test_data_in(&mut store, b"payload".to_vec());
    assert_eq!(reply, b"all ok!".to_vec());
    assert_eq!(store.storage(b"input"), b"payload".to_vec());
    assert_eq!(store.storage(b"code"), b"old code".to_vec());
    assert_eq!(store.code(), b"payload".to_vec());
    assert_eq!(store.validator_count(), 2);
    assert_eq!(
        store.validators(),
        vec![b"v0".to_vec(), b"payload".to_vec()]
    );
}
