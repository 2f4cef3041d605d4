use irclogs::admission::AdmissionGate;

#[test]
fn test_capacity_one_rejects_second() {
    let mut adm = AdmissionGate::new(1);
    assert!(adm.try_admit());
    // while the first session runs, a second request is rejected at once
    assert!(!adm.try_admit());
    adm.release();
    // after the first completes, a new request succeeds
    assert!(adm.try_admit());
}

#[test]
fn test_capacity_counts_permits() {
    let mut adm = AdmissionGate::new(3);
    assert!(adm.try_admit());
    assert!(adm.try_admit());
    assert!(adm.try_admit());
    assert!(!adm.try_admit());
    adm.release();
    assert!(adm.try_admit());
    assert!(!adm.try_admit());
}

#[test]
fn test_release_saturates_at_zero() {
    let mut adm = AdmissionGate::new(1);
    adm.release();
    assert!(adm.try_admit());
    assert!(!adm.try_admit());
}
