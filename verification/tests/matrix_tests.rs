use lvie::matrix::{split3, Matrix, MatrixError};
use lvie::utils::merge_channel;

fn round_matrix(m: &Matrix<f64>, digits: u32) -> Matrix<f64> {
    let pow = 10f64.powi(digits as i32);
    let content: Vec<f64> = m.get_content().iter().map(|x| (x * pow).round() / pow).collect();
    Matrix::new(content, m.height(), m.width())
}

#[test]
fn inverses() {
    let i = Matrix::from_diagonal(vec![1.0, 1.0, 1.0], 0.0);

    let linrgb_to_xyz = Matrix::new(
        vec![
            0.4124564, 0.3575761, 0.1804375, 0.2126729, 0.7151522, 0.0721750, 0.0193339,
            0.1191920, 0.9503041,
        ],
        3,
        3,
    );

    let xyz_to_lms = Matrix::from_rows(vec![
        vec![0.8951, 0.2664, -0.1614],
        vec![-0.7502, 1.7135, 0.0367],
        vec![0.0389, -0.0685, 1.0296],
    ]);

    let lms_to_xyz = Matrix::new(
        vec![
            0.986993,
            -0.147054,
            0.159963,
            0.432305,
            0.51836,
            0.0492912,
            -0.00852866,
            0.0400428,
            0.968487,
        ],
        3,
        3,
    );

    let xyz_to_linrgb = Matrix::new(
        vec![
            3.2404542, -1.5371385, -0.4985314, -0.9692660, 1.8760108, 0.0415560, 0.0556434,
            -0.2040259, 1.0572252,
        ],
        3,
        3,
    );

    let m = round_matrix(&(linrgb_to_xyz * xyz_to_linrgb).unwrap(), 5);
    assert_eq!(m, i);

    let m = round_matrix(&(xyz_to_lms * lms_to_xyz).unwrap(), 5);
    assert_eq!(m, i);
}

#[test]
fn integer_product_is_exact() {
    let a = Matrix::new(vec![1i64, 2, 3, 4, 5, 6], 2, 3);
    let b = Matrix::new(vec![7i64, 8, 9, 10, 11, 12], 3, 2);
    let p = (a * b).unwrap();
    assert_eq!(p.height(), 2);
    assert_eq!(p.width(), 2);
    assert_eq!(p.get_content(), &vec![58, 64, 139, 154]);
}

#[test]
fn product_of_incompatible_shapes_is_an_error() {
    let a = Matrix::new(vec![1i32, 2, 3, 4], 2, 2);
    let b = Matrix::new(vec![1i32, 2, 3], 3, 1);
    match a * b {
        Err(MatrixError::IncompatibleShapes(l, r)) => {
            assert_eq!(l, (2, 2));
            assert_eq!(r, (3, 1));
        }
        _ => panic!("expected an error"),
    }
}

#[test]
fn difference_and_sum_are_element_wise() {
    let a = Matrix::new(vec![5i32, 7, 9, 11], 2, 2);
    let b = Matrix::new(vec![1i32, 2, 3, 4], 2, 2);
    let d = (a - b).unwrap();
    assert_eq!(d.get_content(), &vec![4, 5, 6, 7]);

    let a = Matrix::new(vec![100u8, 5, 0, 200], 1, 4);
    let b = Matrix::new(vec![55u8, 5, 0, 55], 1, 4);
    let s = (a + b).unwrap();
    assert_eq!(s.get_content(), &vec![155, 10, 0, 255]);
    assert_eq!(s.height(), 1);
    assert_eq!(s.width(), 4);
}

#[test]
fn difference_and_sum_of_other_shapes_are_errors() {
    let a = Matrix::new(vec![1i32, 2], 1, 2);
    let b = Matrix::new(vec![1i32, 2], 2, 1);
    match a - b {
        Err(MatrixError::IncompatibleShapes(l, r)) => {
            assert_eq!(l, (2, 1));
            assert_eq!(r, (1, 2));
        }
        _ => panic!("expected an error"),
    }
    let a = Matrix::new(vec![1u8, 2], 1, 2);
    let b = Matrix::new(vec![1u8, 2], 2, 1);
    assert!(matches!(a + b, Err(MatrixError::IncompatibleShapes((2, 1), (1, 2)))));
}

#[test]
fn from_vector_is_a_column() {
    let m: Matrix<u8> = Matrix::from(vec![1u8, 2, 3]);
    assert_eq!(m.height(), 3);
    assert_eq!(m.width(), 1);
    assert_eq!(m.get_content(), &vec![1, 2, 3]);
}

#[test]
fn constructors_and_getters() {
    let m = Matrix::from_rows(vec![vec![1u8, 2], vec![3, 4], vec![5, 6]]);
    assert_eq!(m.height(), 3);
    assert_eq!(m.width(), 2);
    assert_eq!(m.get_content(), &vec![1, 2, 3, 4, 5, 6]);
    assert!(m.check_size());
    assert!(matches!(m.get_element(1, 2), Ok(6)));
    match m.get_element(2, 0) {
        Err(MatrixError::IncompatibleShapes(a, b)) => {
            assert_eq!(a, (3, 1));
            assert_eq!(b, (2, 3));
        }
        _ => panic!("expected an error"),
    }
    assert_eq!(m.consume_content(), vec![1, 2, 3, 4, 5, 6]);

    let d = Matrix::from_diagonal(vec![7u8, 8, 9], 0);
    assert_eq!(d.get_content(), &vec![7, 0, 0, 0, 8, 0, 0, 0, 9]);

    let bad = Matrix::new(vec![1u8, 2, 3], 2, 2);
    assert!(!bad.check_size());
}

#[test]
fn update_content_checks_the_size() {
    let mut m = Matrix::new(vec![0u8; 4], 2, 2);
    assert!(m.update_content(vec![1, 2, 3, 4]).is_ok());
    assert_eq!(m.get_content(), &vec![1, 2, 3, 4]);
    match m.update_content(vec![9, 9]) {
        Err(MatrixError::DifferentContentSize(expected, given)) => {
            assert_eq!(expected, 4);
            assert_eq!(given, 2);
        }
        _ => panic!("expected an error"),
    }
    assert_eq!(m.get_content(), &vec![1, 2, 3, 4]);
}

#[test]
fn pad_keeps_elements_in_place() {
    let mut m = Matrix::new(vec![1u8, 2, 3, 4], 2, 2);
    m.pad(3, 3, 0);
    assert_eq!(m.height(), 3);
    assert_eq!(m.width(), 3);
    assert_eq!(m.get_content(), &vec![1, 2, 0, 3, 4, 0, 0, 0, 0]);
}

#[test]
fn split_then_merge_restores_the_data() {
    let data: Vec<u8> = vec![1, 2, 3, 4, 5, 6, 7, 8, 9, 10, 11, 12];
    let (r, g, b) = split3(Matrix::new(data.clone(), 2, 6));
    assert_eq!(r.get_content(), &vec![1, 4, 7, 10]);
    assert_eq!(g.get_content(), &vec![2, 5, 8, 11]);
    assert_eq!(b.get_content(), &vec![3, 6, 9, 12]);
    assert_eq!(r.height(), 2);
    assert_eq!(r.width(), 2);

    let mut colors = data.clone();
    merge_channel(&mut colors, 1, g.get_content().clone());
    assert_eq!(colors, data);

    let mut colors = data.clone();
    merge_channel(&mut colors, 2, vec![0, 0, 0, 0]);
    assert_eq!(colors, vec![1, 2, 0, 4, 5, 0, 7, 8, 0, 10, 11, 0]);
}
