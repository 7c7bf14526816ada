use numat::array::Array;
use numat::array::Order;
use numat::matrix::Matrix;
use numat::symmat::SymMat;
use std::mem;

/////////////////
// Array Tests //
/////////////////

#[test]
fn test_arr_eq() {
    let a = Array::new(vec![1, 2, 3], Order::Row);
    let b = Array::new(vec![1, 2, 3], Order::Row);
    assert!(a.eq(&b).unwrap());
}

#[test]
fn test_arr_sub() {
    let a = Array::new(vec![1, 2, 3], Order::Row);
    let b = Array::new(vec![4, 5, 6], Order::Row);
    let c = Array::new(vec![3, 3, 3], Order::Row);
    assert!(b.sub(a).unwrap().eq(&c).unwrap());
}

#[test]
fn test_arr_add() {
    let a = Array::new(vec![1, 2, 3], Order::Row);
    let b = Array::new(vec![4, 5, 6], Order::Row);
    let c = Array::new(vec![5, 7, 9], Order::Row);
    assert!(a.add(b).unwrap().eq(&c).unwrap());
}

#[test]
fn test_arr_memuse() {
    let a = Array::new(vec![0; 100], Order::Row);
    let b = Array::new(vec![4, 5, 6], Order::Row);
    assert_eq!(mem::size_of_val(&a), mem::size_of_val(&b));
}

#[test]
fn test_arr_indx() {
    let mut a = Array::new(vec![1, 2, 3], Order::Row);
    a.set(0, 5).unwrap();
    assert_eq!(a.index(0).unwrap(), 5);
}

#[test]
fn test_arr_macro() {
    let a = Array::new(vec![1, 2, 3], Order::Row);
    let b = Array::new(vec![1, 2, 3], Order::Row);
    assert!(a.eq(&b).unwrap());
}

//////////////////
// Matrix Tests //
//////////////////

#[test]
fn test_mat_add() {
    let a = Matrix::new(vec![vec![1, 2], vec![3, 4]]).unwrap();
    let b = Matrix::new(vec![vec![5, 6], vec![7, 8]]).unwrap();
    let c = Matrix::new(vec![vec![6, 8], vec![10, 12]]).unwrap();
    assert!(a.add(b).unwrap().eq(&c).unwrap());
}

#[test]
fn test_mat_sub() {
    let a = Matrix::new(vec![vec![1, 2], vec![3, 4]]).unwrap();
    let b = Matrix::new(vec![vec![5, 6], vec![7, 8]]).unwrap();
    let c = Matrix::new(vec![vec![-4, -4], vec![-4, -4]]).unwrap();
    assert!(a.sub(b).unwrap().eq(&c).unwrap());
}

#[test]
fn test_mat_eq() {
    let a = Matrix::new(vec![vec![1, 2, 3], vec![3, 4, 5]]).unwrap();
    let b = Matrix::new(vec![vec![1, 2, 3], vec![3, 4, 5]]).unwrap();
    assert!(a.eq(&b).unwrap());
}

#[test]
#[should_panic]
fn test_mat_invalid_new() {
    let a = Matrix::new(vec![vec![1, 2], vec![3, 4, 6]]).unwrap();
    assert!(a.eq(&a).unwrap()); // Unreachable
}

#[test]
#[should_panic]
fn test_mat_invalid_add() {
    let a = Matrix::new(vec![vec![1, 2], vec![3, 4]]).unwrap();
    let b = Matrix::new(vec![vec![1, 2, 3], vec![3, 4, 5]]).unwrap();
    let result = a.add(b).unwrap();
    assert!(result.eq(&result).unwrap()); // Unreachable
}

#[test]
fn test_mat_t_2x2() {
    let a = Matrix::new(vec![vec![1, 2], vec![3, 4]]).unwrap();
    let a_t = Matrix::new(vec![vec![1, 3], vec![2, 4]]).unwrap();
    assert!(a_t.eq(&a.transpose()).unwrap());
}

#[test]
fn test_mat_t_2x3() {
    let a = Matrix::new(vec![vec![1, 2, 3], vec![3, 4, 5]]).unwrap();
    let b = Matrix::new(vec![vec![1, 3], vec![2, 4], vec![3, 5]]).unwrap();
    assert!(b.eq(&a.transpose()).unwrap());
}

#[test]
fn test_mat_t_3x2() {
    let a = Matrix::new(vec![vec![1, 2], vec![3, 4], vec![5, 6]]).unwrap();
    let b = Matrix::new(vec![vec![1, 3, 5], vec![2, 4, 6]]).unwrap();
    assert!(b.eq(&a.transpose()).unwrap());
}

#[test]
fn test_mat_zero_tri_lower() {
    let a = Matrix::new(vec![vec![1, 2, 3], vec![0, 5, 6], vec![0, 0, 9]]).unwrap();
    let mut b = Matrix::new(vec![vec![1, 2, 3], vec![4, 5, 6], vec![7, 8, 9]]).unwrap();
    b.zero_trigonal_lower(0).unwrap();
    assert!(a.eq(&b).unwrap());
}

#[test]
fn test_square_mat_macro() {
    let n = Matrix::new(vec![vec![1, 2, 3], vec![4, 5, 6]]).unwrap();
    let m = Matrix::new(vec![vec![1, 2, 3], vec![4, 5, 6]]).unwrap();
    assert!(m.eq(&n).unwrap());
}

#[test]
fn test_mat_indx_get() {
    let b = Matrix::new(vec![vec![1, 2], vec![3, 4]]).unwrap();
    assert_eq!(b.get(1, 1).unwrap(), 4);
}

#[test]
fn test_mat_indx_set() {
    let mut b = Matrix::new(vec![vec![1, 2], vec![3, 4]]).unwrap();
    b.set(1, 0, 5).unwrap();
    assert_eq!(b.get(1, 0).unwrap(), 5);
}

#[test]
fn test_mat_set() {
    let mut b = Matrix::new(vec![vec![1, 2, 3], vec![4, 5, 6], vec![7, 8, 9]]).unwrap();
    b.set(1, 1, 0).unwrap();
    assert_eq!(b.get(1, 1).unwrap(), 0);
}

#[test]
fn test_mat_get() {
    let b = Matrix::new(vec![vec![1, 2, 3], vec![4, 5, 6], vec![7, 8, 9]]).unwrap();
    assert_eq!(b.get(1, 1).unwrap(), 5);
}

#[test]
fn test_mat_debug() {
    let m1 = Matrix::new(vec![vec![1, 2, 3], vec![4, 5, 6], vec![7, 8, 9]]).unwrap();
    println!("{:?}", m1);
}

#[test]
fn test_arr_dot_product_generic() {
    let a = Array::new(vec![1, 2, 3], Order::Row);
    let b = Array::new(vec![4, 5, 6], Order::Row);
    assert_eq!(32, a.mul(b).unwrap());
}

#[test]
fn test_matrix_mul_generic_square() {
    let m1 = Matrix::new(vec![vec![1, 2], vec![3, 4]]).unwrap();
    let m2 = Matrix::new(vec![vec![5, 6], vec![7, 8]]).unwrap();
    let m3 = Matrix::new(vec![vec![19, 22], vec![43, 50]]).unwrap();
    assert!(m3.eq(&m1.mul(m2).unwrap()).unwrap());
}

#[test]
fn test_matrix_mul_generic_nonsquare() {
    let m1 = Matrix::new(vec![vec![1, 2, 3], vec![4, 5, 6]]).unwrap();
    let m2 = Matrix::new(vec![vec![7, 8], vec![9, 10], vec![11, 12]]).unwrap();
    let m3 = Matrix::new(vec![vec![58, 64], vec![139, 154]]).unwrap();
    assert!(m3.eq(&m1.mul(m2).unwrap()).unwrap());
}

////////////////////////////
// Symmetric Matrix Tests //
////////////////////////////

#[test]
fn test_symmat_new_diag_with_fill() {
    let m2 = SymMat::new_diag_with_fill(1, 0, 1).unwrap();
    assert_eq!(m2.get(0, 0).unwrap(), 1);
    let m1 = SymMat::new_diag_with_fill(1, 0, 3).unwrap();
    assert_eq!(m1.get(0, 0).unwrap(), 1);
    assert_eq!(m1.get(0, 1).unwrap(), 0);
    assert_eq!(m1.get(0, 2).unwrap(), 0);
    assert_eq!(m1.get(1, 0).unwrap(), 0);
    assert_eq!(m1.get(1, 1).unwrap(), 1);
    assert_eq!(m1.get(1, 2).unwrap(), 0);
    assert_eq!(m1.get(2, 0).unwrap(), 0);
    assert_eq!(m1.get(2, 1).unwrap(), 0);
    assert_eq!(m1.get(2, 2).unwrap(), 1);
}

#[test]
fn test_symmat_new_filled() {
    let m1 = SymMat::new_filled(1, 3).unwrap();
    let m2 = Matrix::new(vec![vec![1, 1, 1], vec![0, 1, 1], vec![0, 0, 1]]).unwrap();
    let expected = SymMat::new_from_upper_trig(&m2).unwrap();
    assert!(m1.eq(&expected).unwrap());
}

#[test]
fn test_symmat_convert() {
    let m1 = SymMat::new_diag_with_fill(1, 0, 3).unwrap();
    let expected = Matrix::new(vec![vec![1, 0, 0], vec![0, 1, 0], vec![0, 0, 1]]).unwrap();
    let result = m1.to_mat();
    assert!(expected.eq(&result).unwrap());
}

#[test]
fn test_symmat_upper_trig() {
    let m1 = Matrix::new(vec![vec![1, 2, 3], vec![0, 1, 4], vec![0, 0, 1]]).unwrap();
    let sym = SymMat::new_from_upper_trig(&m1).unwrap();
    assert_eq!(sym.get(0, 1).unwrap(), m1.get(0, 1).unwrap());
}
