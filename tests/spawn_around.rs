use chunked_tilemap::spawn_around::generate_chunk_indexes;
use chunked_tilemap::IVec2;

fn ivecs(v: &[(i32, i32)]) -> Vec<IVec2> {
    v.iter().map(|&(x, y)| IVec2::new(x, y)).collect()
}

#[test]
fn test_generate_chunk_indexes_origin() {
    assert_eq!(
        generate_chunk_indexes(IVec2::new(0, 0), 1),
        ivecs(&[(-1, 1), (0, 1), (1, 1), (-1, 0), (0, 0), (1, 0), (-1, -1), (0, -1), (1, -1)])
    );
}

#[test]
fn test_generate_chunk_indexes_shifted() {
    assert_eq!(
        generate_chunk_indexes(IVec2::new(5, -10), 1),
        ivecs(&[(4, -9), (5, -9), (6, -9), (4, -10), (5, -10), (6, -10), (4, -11), (5, -11), (6, -11)])
    );
}

#[test]
fn test_generate_chunk_indexes_range_two() {
    assert_eq!(
        generate_chunk_indexes(IVec2::new(0, 0), 2),
        ivecs(&[
            (-2, 2), (-1, 2), (0, 2), (1, 2), (2, 2),
            (-2, 1), (-1, 1), (0, 1), (1, 1), (2, 1),
            (-2, 0), (-1, 0), (0, 0), (1, 0), (2, 0),
            (-2, -1), (-1, -1), (0, -1), (1, -1), (2, -1),
            (-2, -2), (-1, -2), (0, -2), (1, -2), (2, -2),
        ])
    );
}

#[test]
fn generate_chunk_indexes_radius_zero_is_center() {
    assert_eq!(generate_chunk_indexes(IVec2::new(7, 3), 0), ivecs(&[(7, 3)]));
}

#[test]
fn generate_chunk_indexes_negative_radius_counts_as_zero() {
    assert_eq!(generate_chunk_indexes(IVec2::new(7, 3), -4), ivecs(&[(7, 3)]));
}

#[test]
fn generate_chunk_indexes_cardinality() {
    for r in 0..6 {
        let n = (2 * r + 1) as usize;
        assert_eq!(generate_chunk_indexes(IVec2::new(-3, 11), r).len(), n * n);
    }
}

#[test]
fn generate_chunk_indexes_at_grid_edge() {
    let v = generate_chunk_indexes(IVec2::new(i32::MAX - 1, i32::MIN + 1), 1);
    assert_eq!(v.len(), 9);
    assert_eq!(v[0], IVec2::new(i32::MAX - 2, i32::MIN + 2));
    assert_eq!(v[8], IVec2::new(i32::MAX, i32::MIN));
}
