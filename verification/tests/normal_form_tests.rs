use svd_project::svd::{SWEEPS_PER_VALUE, TOLERANCE};
use svd_project::{can_reconstruct, decompose, diagonal, normalize, perform_svd, prepare};
use svd_project::{Factors, Matrix, Plan, SvdError, Vector};

fn matrix_of(rows: usize, cols: usize, cells: &[f64]) -> Matrix {
    Matrix::from_row_slice(rows, cols, &patterns(cells)).unwrap()
}

fn vector_of(items: &[f64]) -> Vector {
    Vector::from_vec(items.iter().map(|x| x.to_bits()).collect())
}

fn cells_of(m: &Matrix) -> Vec<u64> {
    let mut out = Vec::new();
    for i in 0..m.nrows() {
        for j in 0..m.ncols() {
            out.push(m.get(i, j).unwrap());
        }
    }
    out
}

fn patterns(items: &[f64]) -> Vec<u64> {
    items.iter().map(|x| x.to_bits()).collect()
}

fn factors(u: Matrix, s: Vector, v_t: Matrix) -> Option<Factors> {
    Some(Factors { u: Some(u), v_t: Some(v_t), singular_values: s })
}

fn error_of(r: Result<(Matrix, Vector, Matrix), SvdError>) -> Option<SvdError> {
    match r {
        Ok(_) => None,
        Err(e) => Some(e),
    }
}

#[test]
fn tolerance_is_five_machine_epsilons() {
    assert_eq!(TOLERANCE, (5.0 * f64::EPSILON).to_bits());
}

#[test]
fn plan_allows_thirty_sweeps_for_each_singular_value() {
    assert_eq!(SWEEPS_PER_VALUE, 30);
    let tall = matrix_of(3, 2, &[1.0, 2.0, 3.0, 4.0, 5.0, 6.0]);
    assert_eq!(prepare(&tall), Ok(Plan { max_iterations: 60, tolerance: TOLERANCE }));
    let wide = matrix_of(1, 4, &[1.0, 2.0, 3.0, 4.0]);
    assert_eq!(prepare(&wide), Ok(Plan { max_iterations: 30, tolerance: TOLERANCE }));
    let square = Matrix::zeros(5, 5).unwrap();
    assert_eq!(prepare(&square), Ok(Plan { max_iterations: 150, tolerance: TOLERANCE }));
}

#[test]
fn prepare_rejects_what_cannot_be_decomposed() {
    assert_eq!(prepare(&Matrix::zeros(0, 3).unwrap()), Err(SvdError::InvalidInput));
    assert_eq!(prepare(&Matrix::zeros(3, 0).unwrap()), Err(SvdError::InvalidInput));
    assert_eq!(prepare(&Matrix::zeros(0, 0).unwrap()), Err(SvdError::InvalidInput));
    assert_eq!(prepare(&matrix_of(1, 2, &[1.0, f64::NAN])), Err(SvdError::InvalidInput));
    assert_eq!(prepare(&matrix_of(1, 2, &[f64::INFINITY, 1.0])), Err(SvdError::InvalidInput));
}

#[test]
fn normalize_sorts_and_moves_columns_and_rows_along() {
    let u = matrix_of(2, 3, &[1.0, 2.0, 3.0, 4.0, 5.0, 6.0]);
    let s = vector_of(&[1.0, 3.0, 2.0]);
    let v_t = matrix_of(3, 2, &[10.0, 11.0, 20.0, 21.0, 30.0, 31.0]);
    let (nu, ns, nv_t) = normalize(u, s, v_t);
    assert_eq!(ns.to_vec(), patterns(&[3.0, 2.0, 1.0]));
    assert_eq!(cells_of(&nu), patterns(&[2.0, 3.0, 1.0, 5.0, 6.0, 4.0]));
    assert_eq!(cells_of(&nv_t), patterns(&[20.0, 21.0, 30.0, 31.0, 10.0, 11.0]));
    assert_eq!(nu.shape(), (2, 3));
    assert_eq!(nv_t.shape(), (3, 2));
}

#[test]
fn normalize_removes_signs_and_negates_the_columns_of_u() {
    let u = matrix_of(2, 2, &[1.0, 2.0, -3.0, 0.0]);
    let s = vector_of(&[-5.0, 4.0]);
    let v_t = matrix_of(2, 2, &[10.0, 11.0, 20.0, 21.0]);
    let (nu, ns, nv_t) = normalize(u, s, v_t);
    assert_eq!(ns.to_vec(), patterns(&[5.0, 4.0]));
    assert_eq!(cells_of(&nu), patterns(&[-1.0, 2.0, 3.0, 0.0]));
    assert_eq!(cells_of(&nv_t), patterns(&[10.0, 11.0, 20.0, 21.0]));
}

#[test]
fn normalize_orders_by_magnitude_not_by_signed_value() {
    let u = matrix_of(1, 3, &[1.0, 2.0, 3.0]);
    let s = vector_of(&[1.0, -7.0, 2.0]);
    let v_t = matrix_of(3, 1, &[10.0, 20.0, 30.0]);
    let (nu, ns, nv_t) = normalize(u, s, v_t);
    assert_eq!(ns.to_vec(), patterns(&[7.0, 2.0, 1.0]));
    assert_eq!(cells_of(&nu), patterns(&[-2.0, 3.0, 1.0]));
    assert_eq!(cells_of(&nv_t), patterns(&[20.0, 30.0, 10.0]));
}

#[test]
fn normalize_keeps_equal_values_in_the_order_in_which_they_came() {
    let u = matrix_of(1, 4, &[1.0, 2.0, 3.0, 4.0]);
    let s = vector_of(&[2.0, 5.0, -2.0, 5.0]);
    let v_t = matrix_of(4, 1, &[10.0, 20.0, 30.0, 40.0]);
    let (nu, ns, nv_t) = normalize(u, s, v_t);
    assert_eq!(ns.to_vec(), patterns(&[5.0, 5.0, 2.0, 2.0]));
    assert_eq!(cells_of(&nu), patterns(&[2.0, 4.0, 1.0, -3.0]));
    assert_eq!(cells_of(&nv_t), patterns(&[20.0, 40.0, 10.0, 30.0]));
}

#[test]
fn normalize_turns_negative_zero_into_zero() {
    let u = matrix_of(1, 2, &[1.0, 2.0]);
    let s = vector_of(&[-0.0, 0.0]);
    let v_t = matrix_of(2, 1, &[10.0, 20.0]);
    let (nu, ns, nv_t) = normalize(u, s, v_t);
    assert_eq!(ns.to_vec(), vec![0, 0]);
    assert_eq!(cells_of(&nu), patterns(&[-1.0, 2.0]));
    assert_eq!(cells_of(&nv_t), patterns(&[10.0, 20.0]));
}

#[test]
fn normal_form_is_left_as_it_is() {
    let u = matrix_of(2, 2, &[1.0, -2.0, 3.0, 4.0]);
    let s = vector_of(&[9.0, 9.0]);
    let v_t = matrix_of(2, 3, &[1.0, 2.0, 3.0, -4.0, 5.0, 6.0]);
    let (nu, ns, nv_t) = normalize(u, s, v_t);
    assert_eq!(ns.to_vec(), patterns(&[9.0, 9.0]));
    assert_eq!(cells_of(&nu), patterns(&[1.0, -2.0, 3.0, 4.0]));
    assert_eq!(cells_of(&nv_t), patterns(&[1.0, 2.0, 3.0, -4.0, 5.0, 6.0]));
    let (nu, ns, nv_t) = normalize(nu, ns, nv_t);
    assert_eq!(ns.to_vec(), patterns(&[9.0, 9.0]));
    assert_eq!(cells_of(&nu), patterns(&[1.0, -2.0, 3.0, 4.0]));
    assert_eq!(cells_of(&nv_t), patterns(&[1.0, 2.0, 3.0, -4.0, 5.0, 6.0]));
}

#[test]
fn normalize_accepts_no_singular_values() {
    let (nu, ns, nv_t) = normalize(
        Matrix::zeros(3, 0).unwrap(),
        Vector::from_vec(vec![]),
        Matrix::zeros(0, 2).unwrap(),
    );
    assert_eq!(nu.shape(), (3, 0));
    assert_eq!(ns.len(), 0);
    assert_eq!(nv_t.shape(), (0, 2));
}

#[test]
fn decompose_returns_the_normal_form_of_the_factors() {
    let a = matrix_of(3, 2, &[1.0, 2.0, 3.0, 4.0, 5.0, 6.0]);
    let u = matrix_of(3, 2, &[1.0, 2.0, 3.0, 4.0, 5.0, 6.0]);
    let s = vector_of(&[-1.0, 2.0]);
    let v_t = matrix_of(2, 2, &[7.0, 8.0, 9.0, 10.0]);
    let (nu, ns, nv_t) = decompose(&a, factors(u, s, v_t)).unwrap();
    assert_eq!(nu.shape(), (3, 2));
    assert_eq!(ns.len(), 2);
    assert_eq!(nv_t.shape(), (2, 2));
    assert_eq!(ns.to_vec(), patterns(&[2.0, 1.0]));
    assert_eq!(cells_of(&nu), patterns(&[2.0, -1.0, 4.0, -3.0, 6.0, -5.0]));
    assert_eq!(cells_of(&nv_t), patterns(&[9.0, 10.0, 7.0, 8.0]));
}

#[test]
fn decompose_reports_invalid_input_before_anything_else() {
    let nan = matrix_of(1, 1, &[f64::NAN]);
    assert_eq!(error_of(decompose(&nan, None)), Some(SvdError::InvalidInput));
    let good = factors(matrix_of(1, 1, &[1.0]), vector_of(&[1.0]), matrix_of(1, 1, &[1.0]));
    assert_eq!(error_of(decompose(&nan, good)), Some(SvdError::InvalidInput));
    let empty = Matrix::zeros(0, 2).unwrap();
    let fitting =
        factors(Matrix::zeros(0, 0).unwrap(), vector_of(&[]), Matrix::zeros(0, 2).unwrap());
    assert_eq!(error_of(decompose(&empty, fitting)), Some(SvdError::InvalidInput));
    let infinite = matrix_of(1, 2, &[0.0, f64::NEG_INFINITY]);
    assert_eq!(error_of(decompose(&infinite, None)), Some(SvdError::InvalidInput));
}

#[test]
fn decompose_reports_a_kernel_that_gave_up() {
    let a = matrix_of(2, 2, &[1.0, 2.0, 3.0, 4.0]);
    assert_eq!(error_of(decompose(&a, None)), Some(SvdError::NonConvergence));
    assert!(perform_svd(&a, None).is_none());
}

#[test]
fn decompose_reports_a_missing_factor() {
    let a = matrix_of(1, 1, &[1.0]);
    let without_u =
        Some(Factors { u: None, v_t: Some(matrix_of(1, 1, &[1.0])), singular_values: vector_of(&[1.0]) });
    assert_eq!(error_of(decompose(&a, without_u)), Some(SvdError::MissingFactor));
    let without_v =
        Some(Factors { u: Some(matrix_of(1, 1, &[1.0])), v_t: None, singular_values: vector_of(&[1.0]) });
    assert_eq!(error_of(decompose(&a, without_v)), Some(SvdError::MissingFactor));
    let without_both = Some(Factors { u: None, v_t: None, singular_values: vector_of(&[1.0]) });
    assert_eq!(error_of(decompose(&a, without_both)), Some(SvdError::MissingFactor));
    let again = Some(Factors { u: None, v_t: None, singular_values: vector_of(&[1.0]) });
    assert!(perform_svd(&a, again).is_none());
}

#[test]
fn decompose_reports_factors_of_the_wrong_shape() {
    let a = matrix_of(3, 2, &[1.0, 2.0, 3.0, 4.0, 5.0, 6.0]);
    let full_u = factors(Matrix::zeros(3, 3).unwrap(), vector_of(&[1.0, 1.0]), Matrix::zeros(2, 2).unwrap());
    assert_eq!(error_of(decompose(&a, full_u)), Some(SvdError::DimensionMismatch));
    let short_u = factors(Matrix::zeros(2, 2).unwrap(), vector_of(&[1.0, 1.0]), Matrix::zeros(2, 2).unwrap());
    assert_eq!(error_of(decompose(&a, short_u)), Some(SvdError::DimensionMismatch));
    let long_s = factors(Matrix::zeros(3, 2).unwrap(), vector_of(&[1.0, 1.0, 1.0]), Matrix::zeros(2, 2).unwrap());
    assert_eq!(error_of(decompose(&a, long_s)), Some(SvdError::DimensionMismatch));
    let tall_v = factors(Matrix::zeros(3, 2).unwrap(), vector_of(&[1.0, 1.0]), Matrix::zeros(3, 2).unwrap());
    assert_eq!(error_of(decompose(&a, tall_v)), Some(SvdError::DimensionMismatch));
    let wide_v = factors(Matrix::zeros(3, 2).unwrap(), vector_of(&[1.0, 1.0]), Matrix::zeros(2, 3).unwrap());
    assert_eq!(error_of(decompose(&a, wide_v)), Some(SvdError::DimensionMismatch));
    let wrong_and_nan =
        factors(Matrix::zeros(3, 2).unwrap(), vector_of(&[f64::NAN]), Matrix::zeros(2, 2).unwrap());
    assert_eq!(error_of(decompose(&a, wrong_and_nan)), Some(SvdError::DimensionMismatch));
}

#[test]
fn decompose_reports_factors_that_are_not_finite() {
    let a = matrix_of(2, 1, &[1.0, 2.0]);
    let nan_u = factors(matrix_of(2, 1, &[1.0, f64::NAN]), vector_of(&[1.0]), matrix_of(1, 1, &[1.0]));
    assert_eq!(error_of(decompose(&a, nan_u)), Some(SvdError::NonFiniteResult));
    let inf_s = factors(matrix_of(2, 1, &[1.0, 1.0]), vector_of(&[f64::INFINITY]), matrix_of(1, 1, &[1.0]));
    assert_eq!(error_of(decompose(&a, inf_s)), Some(SvdError::NonFiniteResult));
    let inf_v = factors(matrix_of(2, 1, &[1.0, 1.0]), vector_of(&[1.0]), matrix_of(1, 1, &[f64::NEG_INFINITY]));
    assert_eq!(error_of(decompose(&a, inf_v)), Some(SvdError::NonFiniteResult));
    let again = factors(matrix_of(2, 1, &[1.0, 1.0]), vector_of(&[f64::NAN]), matrix_of(1, 1, &[1.0]));
    assert!(perform_svd(&a, again).is_none());
}

#[test]
fn perform_svd_agrees_with_decompose() {
    let a = matrix_of(1, 2, &[3.0, 4.0]);
    let u = matrix_of(1, 1, &[1.0]);
    let s = vector_of(&[-5.0]);
    let v_t = matrix_of(1, 2, &[-0.6, -0.8]);
    let (nu, ns, nv_t) = perform_svd(&a, factors(u, s, v_t)).unwrap();
    assert_eq!(cells_of(&nu), patterns(&[-1.0]));
    assert_eq!(ns.to_vec(), patterns(&[5.0]));
    assert_eq!(cells_of(&nv_t), patterns(&[-0.6, -0.8]));
}

#[test]
fn diagonal_puts_the_values_on_the_diagonal() {
    let d = diagonal(&vector_of(&[3.0, 2.0, 1.0])).unwrap();
    assert_eq!(d.shape(), (3, 3));
    assert_eq!(cells_of(&d), patterns(&[3.0, 0.0, 0.0, 0.0, 2.0, 0.0, 0.0, 0.0, 1.0]));
    assert_eq!(diagonal(&vector_of(&[])).unwrap().shape(), (0, 0));
}

#[test]
fn can_reconstruct_asks_for_factors_that_fit_together() {
    let u = Matrix::zeros(3, 2).unwrap();
    let v_t = Matrix::zeros(2, 4).unwrap();
    assert!(can_reconstruct(&u, &vector_of(&[1.0, 1.0]), &v_t));
    assert!(!can_reconstruct(&u, &vector_of(&[1.0]), &v_t));
    assert!(!can_reconstruct(&u, &vector_of(&[1.0, 1.0, 1.0]), &v_t));
    assert!(!can_reconstruct(&Matrix::zeros(3, 3).unwrap(), &vector_of(&[1.0, 1.0]), &v_t));
    assert!(!can_reconstruct(&u, &vector_of(&[1.0, 1.0]), &Matrix::zeros(4, 2).unwrap()));
}
