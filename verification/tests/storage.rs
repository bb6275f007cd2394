use ecs_core::ecs::codec::{decode_u32, encode_u32};
use ecs_core::ecs::raw_vec::RawVec;
use ecs_core::ecs::sparse_raw_vec::SparseRawVec;
use ecs_core::ecs::sparse_vec::SparseVec;
use ecs_core::ecs::type_descriptor::TypeDescriptor;

fn pair_payload(a: u32, b: u32) -> Vec<u8> {
    let mut v = encode_u32(a);
    let mut second = encode_u32(b);
    v.append(&mut second);
    v
}

fn pair_of(payload: &Vec<u8>) -> (u32, u32) {
    assert_eq!(payload.len(), 8);
    let first: Vec<u8> = payload[0..4].to_vec();
    let second: Vec<u8> = payload[4..8].to_vec();
    (decode_u32(&first), decode_u32(&second))
}

fn pair_descriptor() -> TypeDescriptor {
    TypeDescriptor::new(8, 4)
}

#[test]
fn raw_vec_test_push() {
    let mut vec = RawVec::new(pair_descriptor());
    vec.insert_raw(0, &pair_payload(1, 2));

    assert_eq!(pair_of(&vec.get(0).unwrap()).0, 1);
    assert_eq!(pair_of(&vec.get(0).unwrap()).1, 2);
}

#[test]
fn raw_vec_test_insert() {
    let mut vec = RawVec::new(pair_descriptor());

    vec.insert_raw(0, &pair_payload(1, 2));
    vec.insert_raw(1, &pair_payload(2, 3));
    vec.insert_raw(2, &pair_payload(4, 5));

    vec.insert_raw(1, &pair_payload(6, 8));

    assert_eq!(pair_of(&vec.get(0).unwrap()).0, 1);
    assert_eq!(pair_of(&vec.get(0).unwrap()).1, 2);

    assert_eq!(pair_of(&vec.get(1).unwrap()).0, 6);
    assert_eq!(pair_of(&vec.get(1).unwrap()).1, 8);

    assert_eq!(pair_of(&vec.get(2).unwrap()).0, 2);
    assert_eq!(pair_of(&vec.get(2).unwrap()).1, 3);
}

#[test]
fn raw_vec_test_complex() {
    let mut vec = RawVec::new(TypeDescriptor::new(4, 1));
    vec.insert_raw(0, &vec![1, 2, 3, 4]);

    assert_eq!(vec.get(0).unwrap()[0], 1);
    assert_eq!(vec.get(0).unwrap()[1], 2);
}

#[test]
fn raw_vec_test_drop() {
    // the store owns its instances: removing them empties it, and dropping
    // the emptied store releases the buffer
    let mut vec = RawVec::new(pair_descriptor());
    vec.insert_raw(0, &pair_payload(1, 2));
    vec.insert_raw(1, &pair_payload(3, 4));

    assert!(vec.remove(1));
    assert!(vec.remove(0));
    assert_eq!(vec.len(), 0);
    drop(vec);
}

#[test]
fn raw_vec_test_remove() {
    let mut vec = RawVec::new(pair_descriptor());

    vec.insert_raw(0, &pair_payload(1, 2));
    vec.insert_raw(1, &pair_payload(2, 3));
    vec.insert_raw(2, &pair_payload(4, 5));

    vec.remove(1);

    assert_eq!(pair_of(&vec.get(0).unwrap()).0, 1);
    assert_eq!(pair_of(&vec.get(0).unwrap()).1, 2);

    assert_eq!(pair_of(&vec.get(1).unwrap()).0, 4);
    assert_eq!(pair_of(&vec.get(1).unwrap()).1, 5);
}

#[test]
fn test_zero_size() {
    let mut vec = RawVec::new(TypeDescriptor::new(0, 1));

    let empty: Vec<u8> = Vec::new();
    vec.insert_raw(0, &empty);
    vec.insert_raw(1, &empty);
    vec.insert_raw(2, &empty);

    assert_eq!(vec.iter().len(), 3);

    vec.remove(1);
    assert_eq!(vec.iter().len(), 2);
}

fn value_payload(x: u32) -> Vec<u8> {
    encode_u32(x)
}

fn value_descriptor() -> TypeDescriptor {
    TypeDescriptor::new(4, 4)
}

#[test]
fn sparse_raw_vec_test_insert() {
    let mut vec = SparseRawVec::new(value_descriptor());

    vec.insert(0, &value_payload(10));
    vec.insert(10, &value_payload(12));
    vec.insert(5, &value_payload(7));
    vec.insert(3, &value_payload(1));

    let items = vec.iter();
    let decoded: Vec<(u32, u32)> = items.iter().map(|p| (p.0, decode_u32(&p.1))).collect();
    assert_eq!(decoded, vec![(0, 10), (3, 1), (5, 7), (10, 12)]);
}

#[test]
fn sparse_raw_vec_test_get() {
    let mut vec = SparseRawVec::new(value_descriptor());

    vec.insert(0, &value_payload(10));
    vec.insert(10, &value_payload(12));

    assert_eq!(decode_u32(&vec.get(0).unwrap()), 10);
    assert_eq!(decode_u32(&vec.get(10).unwrap()), 12);

    assert_eq!(vec.get(1234), None);
}

#[test]
fn test_contains() {
    let mut vec = SparseRawVec::new(value_descriptor());

    vec.insert(0, &value_payload(10));
    vec.insert(10, &value_payload(12));

    assert!(vec.contains(0));
    assert!(!vec.contains(1));
}

#[test]
fn sparse_raw_vec_test_remove() {
    let mut vec = SparseRawVec::new(value_descriptor());

    vec.insert(0, &value_payload(10));
    vec.insert(10, &value_payload(12));
    vec.insert(5, &value_payload(7));
    vec.insert(3, &value_payload(1));

    vec.remove(5);

    let items = vec.iter();
    let decoded: Vec<(u32, u32)> = items.iter().map(|p| (p.0, decode_u32(&p.1))).collect();
    assert_eq!(decoded, vec![(0, 10), (3, 1), (10, 12)]);
}

#[test]
fn sparse_raw_vec_remove_absent_is_idempotent() {
    let mut vec = SparseRawVec::new(value_descriptor());

    vec.insert(0, &value_payload(10));
    vec.insert(3, &value_payload(1));

    assert!(!vec.remove(5));
    let items = vec.iter();
    let decoded: Vec<(u32, u32)> = items.iter().map(|p| (p.0, decode_u32(&p.1))).collect();
    assert_eq!(decoded, vec![(0, 10), (3, 1)]);

    assert!(vec.remove(3));
    assert!(!vec.remove(3));
    assert_eq!(vec.len(), 1);
}

#[test]
fn sparse_raw_vec_insert_overwrites() {
    let mut vec = SparseRawVec::new(value_descriptor());

    vec.insert(7, &value_payload(1));
    vec.insert(7, &value_payload(2));

    assert_eq!(vec.len(), 1);
    assert_eq!(decode_u32(&vec.get(7).unwrap()), 2);
}

#[test]
fn sparse_vec_test_insert() {
    let mut vec: SparseVec<i32> = SparseVec::new();

    vec.insert(0, 10);
    vec.insert(10, 12);
    vec.insert(5, 7);
    vec.insert(3, 1);

    let items: Vec<(usize, i32)> = vec.iter().iter().map(|p| (p.0, *p.1)).collect();
    assert_eq!(items, vec![(0, 10), (3, 1), (5, 7), (10, 12)]);
}

#[test]
fn sparse_vec_test_get() {
    let mut vec: SparseVec<i32> = SparseVec::new();

    vec.insert(0, 10);
    vec.insert(10, 12);

    assert_eq!(*vec.get(0).unwrap(), 10);
    assert_eq!(*vec.get(10).unwrap(), 12);

    assert!(vec.get(1234).is_none());
}
