use neural_net::utils;

#[test]
fn utils_test_from() {
    let m = utils::from(vec![vec![1.0, 2.0], vec![3.0, 4.0]]).unwrap();
    assert_eq!(m.rows, 2);
    assert_eq!(m.cols, 2);
    assert_eq!(m.data, vec![vec![1.0, 2.0], vec![3.0, 4.0]]);
}

#[test]
fn utils_test_multiply() {
    let a = utils::from(vec![vec![1.0, 2.0], vec![3.0, 4.0]]).unwrap();
    let b = utils::from(vec![vec![5.0, 6.0], vec![7.0, 8.0]]).unwrap();
    let c = utils::multiply(a, &b).unwrap();
    assert_eq!(c.rows, 2);
    assert_eq!(c.cols, 2);
    assert_eq!(c.data, vec![vec![19.0, 22.0], vec![43.0, 50.0]]);
}

#[test]
fn utils_test_add() {
    let a = utils::from(vec![vec![1.0, 2.0], vec![3.0, 4.0]]).unwrap();
    let b = utils::from(vec![vec![5.0, 6.0], vec![7.0, 8.0]]).unwrap();
    let c = utils::add(a, b).unwrap();
    assert_eq!(c.rows, 2);
    assert_eq!(c.cols, 2);
    assert_eq!(c.data, vec![vec![6.0, 8.0], vec![10.0, 12.0]]);
}

#[test]
fn utils_test_dot_multiply() {
    let a = utils::from(vec![vec![1.0, 2.0], vec![3.0, 4.0]]).unwrap();
    let b = utils::from(vec![vec![5.0, 6.0], vec![7.0, 8.0]]).unwrap();
    let c = utils::dot_multiply(a, b).unwrap();
    assert_eq!(c.rows, 2);
    assert_eq!(c.cols, 2);
    assert_eq!(c.data, vec![vec![5.0, 12.0], vec![21.0, 32.0]]);
}

#[test]
fn utils_test_subtract() {
    let a = utils::from(vec![vec![1.0, 2.0], vec![3.0, 4.0]]).unwrap();
    let b = utils::from(vec![vec![5.0, 6.0], vec![7.0, 8.0]]).unwrap();
    let c = utils::subtract(a, b).unwrap();
    assert_eq!(c.rows, 2);
    assert_eq!(c.cols, 2);
    assert_eq!(c.data, vec![vec![-4.0, -4.0], vec![-4.0, -4.0]]);
}

#[test]
fn utils_refuse_mismatched_shapes() {
    let a = utils::from(vec![vec![1.0, 2.0]]).unwrap();
    let b = utils::from(vec![vec![1.0], vec![2.0], vec![3.0]]).unwrap();
    assert!(utils::add(a.clone(), b.clone()).is_err());
    assert!(utils::subtract(a.clone(), b.clone()).is_err());
    assert!(utils::dot_multiply(a.clone(), b.clone()).is_err());
    assert!(utils::multiply(a, &b).is_err());
    assert!(utils::from(Vec::<Vec<f64>>::new()).is_err());
}
