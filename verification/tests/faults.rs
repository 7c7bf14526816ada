use numat::array::Array;
use numat::array::Order;
use numat::common::MatError;
use numat::matrix::Matrix;
use numat::symmat::SymMat;

///////////////////////////////
// Algebraic property checks //
///////////////////////////////

#[test]
fn test_arr_add_sub_roundtrip() {
    let a = Array::new(vec![7, -3, 11, 0], Order::Column);
    let b = Array::new(vec![2, 9, -5, 4], Order::Column);
    let a_again = Array::new(vec![7, -3, 11, 0], Order::Column);
    let b_again = Array::new(vec![2, 9, -5, 4], Order::Column);
    let sum = a.add(b).unwrap();
    let back = sum.sub(b_again).unwrap();
    assert!(back.eq(&a_again).unwrap());
}

#[test]
fn test_arr_add_commutes() {
    let a = Array::new(vec![7, -3, 11], Order::Row);
    let b = Array::new(vec![2, 9, -5], Order::Row);
    let a2 = Array::new(vec![7, -3, 11], Order::Row);
    let b2 = Array::new(vec![2, 9, -5], Order::Row);
    let ab = a.add(b).unwrap();
    let ba = b2.add(a2).unwrap();
    assert!(ab.eq(&ba).unwrap());
}

#[test]
fn test_arr_transpose_roundtrip() {
    let a = Array::new(vec![1, 2, 3], Order::Row);
    let original = Array::new(vec![1, 2, 3], Order::Row);
    let twice = a.transpose().transpose();
    assert!(twice.eq(&original).unwrap());
}

#[test]
fn test_arr_transpose_flips_order() {
    let a = Array::new(vec![1, 2], Order::Row);
    let t = a.transpose();
    let column = Array::new(vec![1, 2], Order::Column);
    assert!(t.eq(&column).unwrap());
}

#[test]
fn test_mat_transpose_roundtrip() {
    let a = Matrix::new(vec![vec![1, 2, 3], vec![4, 5, 6]]).unwrap();
    let original = Matrix::new(vec![vec![1, 2, 3], vec![4, 5, 6]]).unwrap();
    let twice = a.transpose().transpose();
    assert_eq!(twice.get_dims(), (2, 3));
    assert!(twice.eq(&original).unwrap());
}

#[test]
fn test_mat_zero_tri_upper() {
    let mut b = Matrix::new(vec![vec![1, 2, 3], vec![4, 5, 6], vec![7, 8, 9]]).unwrap();
    let expected = Matrix::new(vec![vec![1, 0, 0], vec![4, 5, 0], vec![7, 8, 9]]).unwrap();
    b.zero_trigonal_upper(0).unwrap();
    assert!(b.eq(&expected).unwrap());
}

#[test]
fn test_mat_zero_tri_lower_keeps_diag_and_upper() {
    let mut b = Matrix::new(vec![vec![1, 2], vec![3, 4]]).unwrap();
    b.zero_trigonal_lower(-1).unwrap();
    assert_eq!(b.get(0, 0).unwrap(), 1);
    assert_eq!(b.get(0, 1).unwrap(), 2);
    assert_eq!(b.get(1, 0).unwrap(), -1);
    assert_eq!(b.get(1, 1).unwrap(), 4);
}

#[test]
fn test_symmat_diag_fill_dense() {
    let s = SymMat::new_diag_with_fill(7, 2, 4).unwrap();
    let m = s.to_mat();
    for i in 0..4 {
        for j in 0..4 {
            let expected = if i == j { 7 } else { 2 };
            assert_eq!(m.get(i, j).unwrap(), expected);
        }
    }
}

#[test]
fn test_symmat_upper_trig_all_entries() {
    let m1 = Matrix::new(vec![vec![1, 2, 3], vec![9, 4, 5], vec![9, 9, 6]]).unwrap();
    let sym = SymMat::new_from_upper_trig(&m1).unwrap();
    for i in 0..3 {
        for j in i..3 {
            assert_eq!(sym.get(i, j).unwrap(), m1.get(i, j).unwrap());
            assert_eq!(sym.get(j, i).unwrap(), m1.get(i, j).unwrap());
        }
    }
}

#[test]
fn test_symmat_set_updates_both_sides() {
    let mut s = SymMat::new_filled(0, 3).unwrap();
    s.set(0, 2, 9).unwrap();
    assert_eq!(s.get(0, 2).unwrap(), 9);
    assert_eq!(s.get(2, 0).unwrap(), 9);
    assert_eq!(s.get(0, 1).unwrap(), 0);
    assert_eq!(s.get(1, 2).unwrap(), 0);
    assert_eq!(s.get(1, 1).unwrap(), 0);
    s.set(1, 1, 5).unwrap();
    assert_eq!(s.get(1, 1).unwrap(), 5);
    assert_eq!(s.get(0, 2).unwrap(), 9);
}

#[test]
fn test_symmat_transpose_is_identity() {
    let mut s = SymMat::new_filled(1, 3).unwrap();
    s.set(0, 1, 4).unwrap();
    let t = s.transpose();
    assert!(t.eq(&s).unwrap());
}

#[test]
fn test_arr_len_and_filled() {
    let a = Array::new_filled(6, 4, Order::Row);
    assert_eq!(a.len(), 4);
    for i in 0..4 {
        assert_eq!(a.index(i).unwrap(), 6);
    }
    let empty = Array::new_filled(6, 0, Order::Column);
    assert_eq!(empty.len(), 0);
}

#[test]
fn test_mat_filled_and_from_vec() {
    let a = Matrix::new_filled(3, 2, 3).unwrap();
    assert_eq!(a.get_dims(), (2, 3));
    assert_eq!(a.get(1, 2).unwrap(), 3);
    let b = Matrix::new_from_vec(vec![1, 2, 3, 4, 5, 6], 2, 3).unwrap();
    assert_eq!(b.get(0, 2).unwrap(), 3);
    assert_eq!(b.get(1, 0).unwrap(), 4);
    assert!(b.is_square() == false);
    let c = Matrix::new_filled(0, 2, 2).unwrap();
    assert!(c.is_square());
}

////////////////////////////////
// Fault and edge-case checks //
////////////////////////////////

#[test]
fn test_arr_add_order_mismatch_faults() {
    let a = Array::new(vec![1, 2], Order::Row);
    let b = Array::new(vec![1, 2], Order::Column);
    assert_eq!(a.add(b).unwrap_err(), MatError::ShapeMismatch);
}

#[test]
fn test_arr_add_len_mismatch_faults() {
    let a = Array::new(vec![1, 2], Order::Row);
    let b = Array::new(vec![1, 2, 3], Order::Row);
    assert_eq!(a.add(b).unwrap_err(), MatError::ShapeMismatch);
}

#[test]
fn test_arr_sub_mismatch_faults() {
    let a = Array::new(vec![1, 2], Order::Row);
    let b = Array::new(vec![1, 2, 3], Order::Row);
    assert_eq!(a.sub(b).unwrap_err(), MatError::ShapeMismatch);
}

#[test]
fn test_arr_eq_mismatch_faults() {
    let a = Array::new(vec![1, 2], Order::Row);
    let b = Array::new(vec![1, 2], Order::Column);
    assert_eq!(a.eq(&b).unwrap_err(), MatError::ShapeMismatch);
    let c = Array::new(vec![1, 2, 3], Order::Row);
    assert_eq!(a.eq(&c).unwrap_err(), MatError::ShapeMismatch);
}

#[test]
fn test_arr_mul_len_mismatch_faults() {
    let a = Array::new(vec![1, 2], Order::Row);
    let b = Array::new(vec![1, 2, 3], Order::Row);
    assert_eq!(a.mul(b).unwrap_err(), MatError::ShapeMismatch);
}

#[test]
fn test_arr_empty_dot_faults() {
    let a = Array::new(vec![], Order::Row);
    let b = Array::new(vec![], Order::Row);
    assert_eq!(a.mul(b).unwrap_err(), MatError::UndefinedReduction);
}

#[test]
fn test_arr_empty_add_is_empty() {
    let a = Array::new(vec![], Order::Row);
    let b = Array::new(vec![], Order::Row);
    let c = a.add(b).unwrap();
    assert_eq!(c.len(), 0);
}

#[test]
fn test_arr_index_boundary_faults() {
    let a = Array::new(vec![1, 2, 3], Order::Row);
    assert_eq!(a.index(3).unwrap_err(), MatError::IndexOutOfBounds);
    assert_eq!(a.index(4).unwrap_err(), MatError::IndexOutOfBounds);
    let mut b = a;
    assert_eq!(b.set(3, 9).unwrap_err(), MatError::IndexOutOfBounds);
    assert_eq!(b.index(2).unwrap(), 3);
}

#[test]
fn test_mat_empty_new_faults() {
    assert_eq!(Matrix::new(vec![]).unwrap_err(), MatError::DimensionInvalid);
    assert_eq!(
        Matrix::new(vec![vec![], vec![]]).unwrap_err(),
        MatError::DimensionInvalid
    );
}

#[test]
fn test_mat_zero_dim_faults() {
    assert_eq!(
        Matrix::new_filled(1, 0, 3).unwrap_err(),
        MatError::DimensionInvalid
    );
    assert_eq!(
        Matrix::new_filled(1, 3, 0).unwrap_err(),
        MatError::DimensionInvalid
    );
    assert_eq!(
        Matrix::new_from_vec(vec![1, 2, 3], 0, 3).unwrap_err(),
        MatError::DimensionInvalid
    );
}

#[test]
fn test_mat_from_vec_wrong_len_faults() {
    assert_eq!(
        Matrix::new_from_vec(vec![1, 2, 3, 4, 5], 2, 3).unwrap_err(),
        MatError::DimensionInvalid
    );
    assert_eq!(
        Matrix::new_from_vec(vec![1, 2, 3, 4, 5, 6, 7, 8, 9, 10, 11, 12], 2, 3).unwrap_err(),
        MatError::DimensionInvalid
    );
}

#[test]
fn test_mat_get_set_boundary_faults() {
    let mut m = Matrix::new(vec![vec![1, 2], vec![3, 4]]).unwrap();
    assert_eq!(m.get(2, 0).unwrap_err(), MatError::IndexOutOfBounds);
    assert_eq!(m.get(0, 2).unwrap_err(), MatError::IndexOutOfBounds);
    assert_eq!(m.set(2, 0, 9).unwrap_err(), MatError::IndexOutOfBounds);
    assert_eq!(m.get(1, 1).unwrap(), 4);
}

#[test]
fn test_mat_eq_mismatch_faults() {
    let a = Matrix::new(vec![vec![1, 2], vec![3, 4]]).unwrap();
    let b = Matrix::new(vec![vec![1, 2, 3], vec![4, 5, 6]]).unwrap();
    assert_eq!(a.eq(&b).unwrap_err(), MatError::ShapeMismatch);
}

#[test]
fn test_mat_mul_inner_mismatch_faults() {
    let a = Matrix::new(vec![vec![1, 2], vec![3, 4]]).unwrap();
    let b = Matrix::new(vec![vec![1, 2], vec![3, 4], vec![5, 6]]).unwrap();
    assert_eq!(a.mul(b).unwrap_err(), MatError::ShapeMismatch);
}

#[test]
fn test_mat_zero_trigonal_not_square_faults() {
    let mut a = Matrix::new(vec![vec![1, 2, 3], vec![4, 5, 6]]).unwrap();
    assert_eq!(a.zero_trigonal_upper(0).unwrap_err(), MatError::NotSquare);
    assert_eq!(a.zero_trigonal_lower(0).unwrap_err(), MatError::NotSquare);
    assert_eq!(a.get(1, 2).unwrap(), 6);
}

#[test]
fn test_symmat_zero_dim_faults() {
    assert_eq!(
        SymMat::new_diag_with_fill(1, 0, 0).unwrap_err(),
        MatError::DimensionInvalid
    );
    assert_eq!(
        SymMat::new_filled(1, 0).unwrap_err(),
        MatError::DimensionInvalid
    );
}

#[test]
fn test_symmat_upper_trig_not_square_faults() {
    let m = Matrix::new(vec![vec![1, 2, 3], vec![4, 5, 6]]).unwrap();
    assert_eq!(
        SymMat::new_from_upper_trig(&m).unwrap_err(),
        MatError::NotSquare
    );
}

#[test]
fn test_symmat_get_set_boundary_faults() {
    let mut s = SymMat::new_filled(0, 3).unwrap();
    assert_eq!(s.get(3, 0).unwrap_err(), MatError::IndexOutOfBounds);
    assert_eq!(s.get(0, 3).unwrap_err(), MatError::IndexOutOfBounds);
    assert_eq!(s.set(3, 0, 1).unwrap_err(), MatError::IndexOutOfBounds);
    assert_eq!(s.get(2, 2).unwrap(), 0);
}

#[test]
fn test_symmat_eq_mismatch_faults() {
    let a = SymMat::new_filled(1, 2).unwrap();
    let b = SymMat::new_filled(1, 3).unwrap();
    assert_eq!(a.eq(&b).unwrap_err(), MatError::ShapeMismatch);
}

#[test]
fn test_symmat_get_dims() {
    let s = SymMat::new_filled(1, 5).unwrap();
    assert_eq!(s.get_dims(), (5, 5));
    let m = s.to_mat();
    assert_eq!(m.get_dims(), (5, 5));
}
