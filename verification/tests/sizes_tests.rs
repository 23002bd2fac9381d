use gloom_rs::sizes::{byte_size_of_array, offset_bytes, size_of};

#[test]
fn byte_size_of_float_array() {
    let v: Vec<f32> = vec![1.0, 2.0, 3.0];
    assert_eq!(byte_size_of_array(&v), 12);
}

#[test]
fn byte_size_of_index_array() {
    let v: Vec<u32> = vec![0, 1, 2, 2, 3, 0];
    assert_eq!(byte_size_of_array(&v), 24);
}

#[test]
fn byte_size_of_empty_array() {
    let v: Vec<u64> = Vec::new();
    assert_eq!(byte_size_of_array(&v), 0);
}

#[test]
fn size_of_primitives() {
    assert_eq!(size_of::<u64>(), 8);
    assert_eq!(size_of::<f32>(), 4);
    assert_eq!(size_of::<u8>(), 1);
    assert_eq!(size_of::<[f32; 3]>(), 12);
}

#[test]
fn offset_of_third_float() {
    assert_eq!(offset_bytes::<f32>(3), 12);
    assert_eq!(offset_bytes::<u64>(4), 32);
    assert_eq!(offset_bytes::<u64>(0), 0);
}

#[test]
fn byte_sizes_add_up_when_arrays_are_joined() {
    let a: Vec<f32> = vec![1.0, 2.0, 3.0];
    let b: Vec<f32> = vec![4.0, 5.0];
    let mut c = a.clone();
    c.extend_from_slice(&b);
    assert_eq!(byte_size_of_array(&c[..]), byte_size_of_array(&a) + byte_size_of_array(&b));
    assert_eq!(byte_size_of_array(&c[..]), c.len() as isize * size_of::<f32>() as isize);
}
