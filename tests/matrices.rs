use ray_tracer::matrix::{Matrix, MatrixBuilder};

#[test]
fn create_matrix() {
    let m = MatrixBuilder::new(4) //
        .row(&[1.0, 2.0, 3.0, 4.0]) //
        .row(&[5.5, 6.5, 7.5, 8.5]) //
        .row(&[9.0, 10.0, 11.0, 12.0]) //
        .row(&[13.5, 14.5, 15.5, 16.5]) //
        .matrix();

    assert_eq!(m.at(0, 0), 1.0);
    assert_eq!(m.at(0, 3), 4.0);
    assert_eq!(m.at(1, 0), 5.5);
    assert_eq!(m.at(1, 2), 7.5);
    assert_eq!(m.at(2, 2), 11.0);
    assert_eq!(m.at(3, 0), 13.5);
    assert_eq!(m.at(3, 2), 15.5);
}

#[test]
fn create_matrix_2x2() {
    let m = MatrixBuilder::new(2)
        .row(&[1.0, 2.0])
        .row(&[5.5, 6.5])
        .matrix();
    assert_eq!(m.at(0, 0), 1.0);
    assert_eq!(m.at(0, 1), 2.0);
    assert_eq!(m.at(1, 0), 5.5);
    assert_eq!(m.at(1, 1), 6.5);
}

#[test]
fn create_matrix_3x3() {
    let m = MatrixBuilder::new(3)
        .row(&[-3.0, 5.0, 0.0])
        .row(&[1.0, -2.0, -7.0])
        .row(&[0.0, 1.0, 1.0])
        .matrix();
    assert_eq!(m.at(0, 0), -3.0);
    assert_eq!(m.at(1, 1), -2.0);
    assert_eq!(m.at(2, 2), 1.0);
}

#[test]
fn compare_matrix() {
    let m1 = MatrixBuilder::new(4)
        .row(&[1.0, 2.0, 3.0, 4.0])
        .row(&[5.0, 6.0, 7.0, 8.0])
        .row(&[9.0, 8.0, 7.0, 6.0])
        .row(&[5.0, 4.0, 3.0, 2.0])
        .matrix();
    let m2 = MatrixBuilder::new(4)
        .row(&[1.0, 2.0, 3.0, 4.0])
        .row(&[5.0, 6.0, 7.0, 8.0])
        .row(&[9.0, 8.0, 7.0, 6.0])
        .row(&[5.0, 4.0, 3.0, 2.0])
        .matrix();
    let m3 = MatrixBuilder::new(4)
        .row(&[2.0, 3.0, 4.0, 5.0])
        .row(&[6.0, 7.0, 8.0, 9.0])
        .row(&[8.0, 7.0, 6.0, 5.0])
        .row(&[4.0, 3.0, 2.0, 1.0])
        .matrix();
    assert_eq!(m1, m2);
    assert_ne!(m1, m3);
}

#[test]
fn transpose_matrix() {
    let m = MatrixBuilder::new(4)
        .row(&[0.0, 9.0, 3.0, 0.0])
        .row(&[9.0, 8.0, 0.0, 8.0])
        .row(&[1.0, 8.0, 5.0, 3.0])
        .row(&[0.0, 0.0, 5.0, 8.0])
        .matrix();
    let mt = MatrixBuilder::new(4)
        .row(&[0.0, 9.0, 1.0, 0.0])
        .row(&[9.0, 8.0, 8.0, 0.0])
        .row(&[3.0, 0.0, 5.0, 5.0])
        .row(&[0.0, 8.0, 3.0, 8.0])
        .matrix();
    assert_eq!(m.transposed(), mt);
}

#[test]
fn get_submatrix_3x3() {
    let m1 = MatrixBuilder::new(3)
        .row(&[1.0, 5.0, 0.0])
        .row(&[-3.0, 2.0, 7.0])
        .row(&[0.0, 6.0, -3.0])
        .matrix();
    let m2 = MatrixBuilder::new(2)
        .row(&[-3.0, 2.0])
        .row(&[0.0, 6.0])
        .matrix();
    assert_eq!(m1.submatrix(0, 2), m2);
}

#[test]
fn get_submatrix_4x4() {
    let m1 = MatrixBuilder::new(4)
        .row(&[-6.0, 1.0, 1.0, 6.0])
        .row(&[-8.0, 5.0, 8.0, 6.0])
        .row(&[-1.0, 0.0, 8.0, 2.0])
        .row(&[-7.0, 1.0, -1.0, 1.0])
        .matrix();
    let m2 = MatrixBuilder::new(3)
        .row(&[-6.0, 1.0, 6.0])
        .row(&[-8.0, 8.0, 6.0])
        .row(&[-7.0, -1.0, 1.0])
        .matrix();
    assert_eq!(m1.submatrix(2, 1), m2);
}

#[test]
fn set_matrix_entry() {
    let mut m = Matrix::new(2, vec![1, 2, 3, 4]);
    m.set(1, 0, 9);
    assert_eq!(m, Matrix::new(2, vec![1, 2, 9, 4]));
    assert_eq!(m.size(), 2);
}

#[test]
fn matrix_bounds() {
    let m = Matrix::new(3, vec![0_u8; 9]);
    assert!(m.in_bounds(2, 2));
    assert!(!m.in_bounds(3, 0));
    assert!(!m.in_bounds(0, 3));
}

#[test]
fn submatrix_of_2x2_is_single_entry() {
    let m = Matrix::new(2, vec![1, 2, 3, 4]);
    assert_eq!(m.submatrix(0, 0), Matrix::new(1, vec![4]));
    assert_eq!(m.submatrix(1, 0), Matrix::new(1, vec![2]));
}

#[test]
fn transpose_twice_is_identity_on_entries() {
    let m = Matrix::new(3, vec![1, 2, 3, 4, 5, 6, 7, 8, 9]);
    assert_eq!(m.transposed(), Matrix::new(3, vec![1, 4, 7, 2, 5, 8, 3, 6, 9]));
    assert_eq!(m.transposed().transposed(), m);
}
