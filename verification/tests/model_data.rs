use ship_cache::data_array::DataArray;
use ship_cache::mesh_index::{obj_face_indices, stl_face_indices};
use std::collections::HashMap;

#[test]
fn error_of_an_answer_without_errors_is_none() {
    let a: DataArray<u32> = DataArray { data: vec![1, 2], error: HashMap::new() };
    assert_eq!(a.error(), None);
}

#[test]
fn error_of_an_answer_with_one_error() {
    let mut error = HashMap::new();
    error.insert("parse".to_string(), "bad json".to_string());
    let a: DataArray<u32> = DataArray { data: vec![], error };
    assert_eq!(a.error(), Some(&"bad json".to_string()));
}

#[test]
fn error_of_an_answer_with_several_errors_is_one_of_them() {
    let mut error = HashMap::new();
    error.insert("a".to_string(), "first".to_string());
    error.insert("b".to_string(), "second".to_string());
    let a: DataArray<u32> = DataArray { data: vec![3], error };
    let e = a.error().unwrap();
    assert!(e == "first" || e == "second");
}

#[test]
fn stl_indices_are_narrowed_to_u32() {
    let faces = vec![[0usize, 1, 2], [2, 3, 0]];
    assert_eq!(stl_face_indices(&faces), vec![[0u32, 1, 2], [2, 3, 0]]);
    assert_eq!(stl_face_indices(&Vec::new()), Vec::<[u32; 3]>::new());
}

#[test]
fn stl_indices_keep_the_low_bits() {
    let big = (1usize << 32) + 5;
    assert_eq!(stl_face_indices(&vec![[big, 1, 2]]), vec![[5u32, 1, 2]]);
}

#[test]
fn obj_indices_take_the_first_three_vertices() {
    let polygons = vec![vec![0usize, 1, 2, 3], vec![4, 5, 6]];
    assert_eq!(obj_face_indices(&polygons), vec![[0u32, 1, 2], [4, 5, 6]]);
}
