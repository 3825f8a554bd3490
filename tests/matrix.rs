use frodo_kem::{FrodoError, Matrix};

fn from_rows(rows: &[&[i16]]) -> Matrix {
    let r = rows.len();
    let c = rows[0].len();
    let mut m = Matrix::new(r, c);
    for i in 0..r {
        for j in 0..c {
            m.set(i, j, rows[i][j]);
        }
    }
    m
}

#[test]
fn new_matrix_is_zero() {
    let m = Matrix::new(3, 4);
    for i in 0..3 {
        for j in 0..4 {
            assert_eq!(m.get(i, j), 0);
        }
    }
    assert_eq!(m.nrows_exec(), 3);
    assert_eq!(m.ncols_exec(), 4);
}

#[test]
fn set_changes_one_entry() {
    let mut m = Matrix::new(2, 3);
    m.set(1, 2, -7);
    assert_eq!(m.get(1, 2), -7);
    assert_eq!(m.get(0, 2), 0);
    assert_eq!(m.get(1, 1), 0);
}

#[test]
fn multiply_small_exact() {
    let a = from_rows(&[&[1, 2], &[3, 4]]);
    let b = from_rows(&[&[5, 6], &[7, 8]]);
    let p = a.multiply(&b);
    assert_eq!(p.nrows_exec(), 2);
    assert_eq!(p.ncols_exec(), 2);
    assert_eq!(p.get(0, 0), 19);
    assert_eq!(p.get(0, 1), 22);
    assert_eq!(p.get(1, 0), 43);
    assert_eq!(p.get(1, 1), 50);
}

#[test]
fn multiply_reduces_after_each_term() {
    let a = from_rows(&[&[30000, 30000]]);
    let b = from_rows(&[&[1], &[1]]);
    assert_eq!(a.multiply(&b).get(0, 0), 27232);
}

#[test]
fn multiply_remainder_follows_sign() {
    let a = from_rows(&[&[-30000, -30000]]);
    let b = from_rows(&[&[1], &[1]]);
    assert_eq!(a.multiply(&b).get(0, 0), -27232);
    let c = from_rows(&[&[-3, 1]]);
    let d = from_rows(&[&[1], &[1]]);
    assert_eq!(c.multiply(&d).get(0, 0), -2);
}

#[test]
fn multiply_partial_sums_are_reduced() {
    // 30000 + 30000 is reduced to 27232 before -30000 is added.
    let a = from_rows(&[&[30000, 30000, -30000]]);
    let b = from_rows(&[&[1], &[1], &[1]]);
    assert_eq!(a.multiply(&b).get(0, 0), -2768);
}

#[test]
fn multiply_extreme_product() {
    let a = from_rows(&[&[-32768]]);
    let b = from_rows(&[&[-32768]]);
    assert_eq!(a.multiply(&b).get(0, 0), 0);
    let c = from_rows(&[&[32767]]);
    let d = from_rows(&[&[3]]);
    assert_eq!(c.multiply(&d).get(0, 0), 32765);
}

#[test]
fn multiply_shape() {
    let a = Matrix::new(3, 5);
    let b = Matrix::new(5, 2);
    let p = a.multiply(&b);
    assert_eq!(p.nrows_exec(), 3);
    assert_eq!(p.ncols_exec(), 2);
}

#[test]
fn transpose_swaps_indices() {
    let a = from_rows(&[&[1, 2, 3], &[4, 5, 6]]);
    let t = a.transpose();
    assert_eq!(t.nrows_exec(), 3);
    assert_eq!(t.ncols_exec(), 2);
    assert_eq!(t.get(0, 1), 4);
    assert_eq!(t.get(2, 0), 3);
    assert_eq!(t.get(2, 1), 6);
}

#[test]
fn serialize_little_endian() {
    let a = from_rows(&[&[1, -2], &[256, -32768]]);
    assert_eq!(a.serialize(), vec![1, 0, 0xFE, 0xFF, 0, 1, 0, 0x80]);
}

#[test]
fn deserialize_reads_row_major() {
    let m = Matrix::deserialize(&[1, 0, 0xFE, 0xFF, 0xFF, 0x7F], 1, 3).unwrap();
    assert_eq!(m.get(0, 0), 1);
    assert_eq!(m.get(0, 1), -2);
    assert_eq!(m.get(0, 2), 32767);
}

#[test]
fn matrix_round_trip() {
    let a = from_rows(&[&[0, -1, 32767], &[-32768, 12345, -300]]);
    let bytes = a.serialize();
    let b = Matrix::deserialize(&bytes, 2, 3).unwrap();
    for i in 0..2 {
        for j in 0..3 {
            assert_eq!(a.get(i, j), b.get(i, j));
        }
    }
}

#[test]
fn deserialize_one_byte_short_fails() {
    let r = Matrix::deserialize(&[0u8; 11], 2, 3);
    assert_eq!(
        r.err(),
        Some(FrodoError::DeserializationError("Not enough data".to_string()))
    );
}

#[test]
fn deserialize_exact_and_longer_succeed() {
    assert!(Matrix::deserialize(&[0u8; 12], 2, 3).is_ok());
    let mut data = vec![7u8; 12];
    data.push(99);
    data.push(98);
    let m = Matrix::deserialize(&data, 2, 3).unwrap();
    assert_eq!(m.get(1, 2), 0x0707);
    assert_eq!(m.serialize(), vec![7u8; 12]);
}

#[test]
fn empty_matrix_serializes_empty() {
    let m = Matrix::new(0, 4);
    assert!(m.serialize().is_empty());
    assert!(Matrix::deserialize(&[], 0, 4).is_ok());
}
