use bayes_predict::trial::{DataError, ObservedData};

#[test]
fn observed_data_accepts_valid_counts() {
    let d = ObservedData::new(10, 25, 50).unwrap();
    assert_eq!(ObservedData { y: 10, n: 25, total: 50 }, d);
    assert_eq!(15, d.failures());
    assert_eq!(25, d.remaining());
    assert!(ObservedData::new(0, 0, 0).is_ok());
    assert!(ObservedData::new(50, 50, 50).is_ok());
}

#[test]
fn observed_data_rejects_too_many_successes() {
    assert_eq!(Err(DataError::SuccessesExceedObserved), ObservedData::new(26, 25, 50));
    assert_eq!(Err(DataError::SuccessesExceedObserved), ObservedData::new(60, 25, 50));
}

#[test]
fn observed_data_rejects_too_many_patients() {
    assert_eq!(Err(DataError::ObservedExceedsPlanned), ObservedData::new(10, 51, 50));
}

#[test]
fn completed_with_adds_future_successes() {
    let d = ObservedData::new(8, 25, 50).unwrap();
    let end = d.completed_with(7);
    assert_eq!(ObservedData { y: 15, n: 50, total: 50 }, end);
    assert_eq!(0, end.remaining());
    assert_eq!(35, end.failures());
    let all = d.completed_with(d.remaining());
    assert_eq!(ObservedData { y: 33, n: 50, total: 50 }, all);
}
