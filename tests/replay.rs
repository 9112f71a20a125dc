use drone_fusion::replay::{next_row, order_sensor_files, pair_files, parse_index, PairingError};

fn strings(v: &[&str]) -> Vec<String> {
    v.iter().map(|s| s.to_string()).collect()
}

#[test]
fn files_pair_with_modules_by_id() {
    let listed = strings(&["in/s4.csv", "in/s5.csv", "in/s7.csv"]);
    let per_module = order_sensor_files(&listed, &vec![4, 7, 5]).unwrap();
    assert_eq!(per_module, strings(&["in/s4.csv", "in/s7.csv", "in/s5.csv"]));
}

#[test]
fn pairing_ignores_listing_order() {
    let a = order_sensor_files(&strings(&["in/s7.csv", "in/s4.csv", "in/s5.csv"]), &vec![4, 7, 5]);
    let b = order_sensor_files(&strings(&["in/s5.csv", "in/s7.csv", "in/s4.csv"]), &vec![4, 7, 5]);
    assert_eq!(a, b);
    assert_eq!(a, Ok(strings(&["in/s4.csv", "in/s7.csv", "in/s5.csv"])));
}

#[test]
fn numbers_compare_numerically() {
    let listed = strings(&["d/module10.csv", "d/module9.csv", "d/module100.csv"]);
    let per_module = order_sensor_files(&listed, &vec![9, 10, 100]).unwrap();
    assert_eq!(per_module, strings(&["d/module9.csv", "d/module10.csv", "d/module100.csv"]));
}

#[test]
fn count_mismatch_is_reported() {
    let listed = strings(&["in/s4.csv", "in/s5.csv"]);
    assert_eq!(
        order_sensor_files(&listed, &vec![4, 5, 6]),
        Err(PairingError::CountMismatch { modules: 3, files: 2 })
    );
}

#[test]
fn module_without_file_is_reported() {
    let listed = strings(&["in/s4.csv", "in/s5.csv", "in/s8.csv"]);
    assert_eq!(order_sensor_files(&listed, &vec![4, 7, 5]), Err(PairingError::MissingFile(1)));
    let listed = strings(&["in/s4.csv"]);
    assert_eq!(order_sensor_files(&listed, &vec![-4]), Err(PairingError::MissingFile(0)));
}

#[test]
fn unnumbered_file_is_reported() {
    let listed = strings(&["in/s4.csv", "in/notes.txt", "in/s5.csv"]);
    assert_eq!(order_sensor_files(&listed, &vec![4, 5, 6]), Err(PairingError::UnnumberedFile(1)));
    let bare = strings(&["12.csv"]);
    assert_eq!(order_sensor_files(&bare, &vec![12]), Err(PairingError::UnnumberedFile(0)));
}

#[test]
fn pairing_from_given_captures() {
    let paths = strings(&["x", "y", "z"]);
    let caps = vec![Some("2".to_string()), Some("1".to_string()), Some("2".to_string())];
    assert_eq!(pair_files(&paths, &caps, &vec![1, 2, 2]), Ok(strings(&["y", "x", "x"])));
    let caps = vec![Some("2".to_string()), None, Some("x".to_string())];
    assert_eq!(pair_files(&paths, &caps, &vec![1, 2, 3]), Err(PairingError::UnnumberedFile(1)));
    assert_eq!(pair_files(&Vec::new(), &Vec::new(), &Vec::new()), Ok(Vec::new()));
}

#[test]
fn index_parsing() {
    assert_eq!(parse_index("0"), Some(0));
    assert_eq!(parse_index("0042"), Some(42));
    assert_eq!(parse_index("2147483647"), Some(2147483647));
    assert_eq!(parse_index("2147483648"), None);
    assert_eq!(parse_index("99999999999999999999999"), None);
    assert_eq!(parse_index(""), None);
    assert_eq!(parse_index("4a"), None);
    assert_eq!(parse_index("٣"), None);
}

#[test]
fn row_stops_when_any_stream_ends() {
    assert_eq!(next_row(vec![Some(1.5), Some(2.5)]), Some(vec![1.5, 2.5]));
    assert_eq!(next_row(vec![Some(1.5), None, Some(3.0)]), None);
    assert_eq!(next_row::<f64>(vec![]), Some(vec![]));
}
