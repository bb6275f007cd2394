use ecs_core::ecs::any_storage::AnyStorage;
use ecs_core::ecs::any_vec::AnyVec;
use ecs_core::ecs::codec::{decode_u32, encode_u32};
use ecs_core::ecs::sparse_any_vec::SparseAnyVec;

const PAIR_TAG: u64 = 100;
const SINGLE_TAG: u64 = 101;
const I32_TAG: u64 = 102;
const F32_TAG: u64 = 103;

fn pair_payload(a: u32, b: u32) -> Vec<u8> {
    let mut v = encode_u32(a);
    let mut second = encode_u32(b);
    v.append(&mut second);
    v
}

fn pair_of(payload: &Vec<u8>) -> (u32, u32) {
    assert_eq!(payload.len(), 8);
    let first: Vec<u8> = payload[0..4].to_vec();
    let second: Vec<u8> = payload[4..8].to_vec();
    (decode_u32(&first), decode_u32(&second))
}

fn i32_payload(x: i32) -> Vec<u8> {
    x.to_le_bytes().to_vec()
}

fn i32_of(payload: &Vec<u8>) -> i32 {
    i32::from_le_bytes([payload[0], payload[1], payload[2], payload[3]])
}

#[test]
fn any_vec_test_push() {
    let mut vec = AnyVec::new();
    vec.insert(0, PAIR_TAG, &pair_payload(1, 2));

    assert_eq!(pair_of(&vec.get(0, PAIR_TAG).unwrap()).0, 1);
    assert_eq!(pair_of(&vec.get(0, PAIR_TAG).unwrap()).1, 2);
}

#[test]
fn any_vec_test_insert() {
    let mut vec = AnyVec::new();

    vec.insert(0, PAIR_TAG, &pair_payload(1, 2));
    vec.insert(1, PAIR_TAG, &pair_payload(2, 3));
    vec.insert(2, PAIR_TAG, &pair_payload(4, 5));

    vec.insert(1, PAIR_TAG, &pair_payload(6, 8));

    assert_eq!(pair_of(&vec.get(0, PAIR_TAG).unwrap()).0, 1);
    assert_eq!(pair_of(&vec.get(0, PAIR_TAG).unwrap()).1, 2);

    assert_eq!(pair_of(&vec.get(1, PAIR_TAG).unwrap()).0, 6);
    assert_eq!(pair_of(&vec.get(1, PAIR_TAG).unwrap()).1, 8);

    assert_eq!(pair_of(&vec.get(2, PAIR_TAG).unwrap()).0, 2);
    assert_eq!(pair_of(&vec.get(2, PAIR_TAG).unwrap()).1, 3);
}

#[test]
fn any_vec_test_complex() {
    let mut vec = AnyVec::new();
    vec.insert(0, SINGLE_TAG, &vec![1, 2, 3, 4]);

    assert_eq!(vec.get(0, SINGLE_TAG).unwrap()[0], 1);
    assert_eq!(vec.get(0, SINGLE_TAG).unwrap()[1], 2);
}

#[test]
fn test_heterogeneous() {
    let mut vec = AnyVec::new();
    vec.insert(0, SINGLE_TAG, &encode_u32(0));
    vec.insert(1, PAIR_TAG, &pair_payload(1, 2));
    vec.insert(2, SINGLE_TAG, &encode_u32(3));

    assert_eq!(decode_u32(&vec.get(0, SINGLE_TAG).unwrap()), 0);
    assert_eq!(pair_of(&vec.get(1, PAIR_TAG).unwrap()).0, 1);
    assert_eq!(pair_of(&vec.get(1, PAIR_TAG).unwrap()).1, 2);
    assert_eq!(decode_u32(&vec.get(2, SINGLE_TAG).unwrap()), 3);
}

#[test]
fn test_storage() {
    let mut payload = encode_u32(123);
    payload.append(&mut vec![1, 2, 3, 4]);
    let storage = AnyStorage::new(SINGLE_TAG, payload);

    let view = storage.get(SINGLE_TAG);
    let first: Vec<u8> = view[0..4].to_vec();
    assert_eq!(decode_u32(&first), 123);
    assert_eq!(&view[4..8], [1, 2, 3, 4]);
}

#[test]
fn any_storage_test_drop() {
    // the storage owns its payload: it is released with the storage
    {
        let storage = AnyStorage::new(SINGLE_TAG, vec![1, 2, 3]);
        assert_eq!(storage.get(SINGLE_TAG).len(), 3);
    }
}

#[test]
fn test_into_inner() {
    let storage = AnyStorage::new(SINGLE_TAG, vec![7, 8, 9]);
    let inner = storage.into_inner(SINGLE_TAG);

    assert_eq!(inner, vec![7, 8, 9]);
    drop(inner);
}

#[test]
fn any_storage_get_mut() {
    let mut storage = AnyStorage::new(SINGLE_TAG, vec![7, 8, 9]);
    storage.get_mut(SINGLE_TAG)[0] = 1;
    assert_eq!(storage.get(SINGLE_TAG)[0], 1);
}

#[test]
fn sparse_any_vec_test_insert() {
    let mut vec = SparseAnyVec::new();

    vec.insert(0, I32_TAG, &i32_payload(10));
    vec.insert(10, F32_TAG, &12.0f32.to_le_bytes().to_vec());
    vec.insert(5, I32_TAG, &i32_payload(7));
    vec.insert(3, I32_TAG, &i32_payload(1));

    assert_eq!(i32_of(&vec.get(0, I32_TAG).unwrap()), 10);
    let raw = vec.get(10, F32_TAG).unwrap();
    assert_eq!(f32::from_le_bytes([raw[0], raw[1], raw[2], raw[3]]), 12.0);
    assert_eq!(i32_of(&vec.get(5, I32_TAG).unwrap()), 7);
    assert_eq!(i32_of(&vec.get(3, I32_TAG).unwrap()), 1);
}

#[test]
fn sparse_any_vec_test_get() {
    let mut vec = SparseAnyVec::new();

    vec.insert(0, I32_TAG, &i32_payload(10));
    vec.insert(10, I32_TAG, &i32_payload(12));

    assert_eq!(i32_of(&vec.get(0, I32_TAG).unwrap()), 10);
    assert_eq!(i32_of(&vec.get(10, I32_TAG).unwrap()), 12);

    assert_eq!(vec.get(1234, I32_TAG), None);
}
