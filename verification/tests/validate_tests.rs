use webgl_renderer::coll::{flatten_optional_vector, replicate, select_by_indices};
use webgl_renderer::level::{Level, Report};
use webgl_renderer::validate::{check, contains, divisible_by, equal_on, not_empty, optional};

#[test]
fn check_passes_when_condition_holds() {
    assert_eq!(check(true, || "never"), Ok(()));
}

#[test]
fn check_builds_error_when_condition_fails() {
    assert_eq!(check(false, || "failed"), Err("failed"));
}

#[test]
fn optional_none_passes() {
    let value: Option<i32> = None;
    assert_eq!(optional(&value, |_v: &i32| Err::<(), &str>("called")), Ok(()));
}

#[test]
fn optional_some_runs_condition() {
    let value = Some(4);
    assert_eq!(optional(&value, |v: &i32| check(*v > 5, || "too small")), Err("too small"));
    let value = Some(6);
    assert_eq!(optional(&value, |v: &i32| check(*v > 5, || "too small")), Ok(()));
}

#[test]
fn contains_finds_value() {
    let array = [1u32, 2, 3];
    assert_eq!(contains(&2u32, &array, |v: &u32| *v), Ok(()));
}

#[test]
fn contains_reports_missing_value() {
    let array = [1u32, 2, 3];
    assert_eq!(contains(&7u32, &array, |v: &u32| *v + 100), Err(107));
}

#[test]
fn not_empty_checks_length() {
    let empty: [u8; 0] = [];
    assert_eq!(not_empty(&empty, || "empty"), Err("empty"));
    assert_eq!(not_empty(&[1u8], || "empty"), Ok(()));
}

#[test]
fn equal_on_compares_keys() {
    let a = (1, "x");
    let b = (1, "y");
    let c = (2, "x");
    assert_eq!(equal_on(&a, &b, |p: &(i32, &str)| p.0, || "differ"), Ok(()));
    assert_eq!(equal_on(&a, &c, |p: &(i32, &str)| p.0, || "differ"), Err("differ"));
}

#[test]
fn divisible_by_checks_remainder() {
    assert_eq!(divisible_by(12, 4, || "odd"), Ok(()));
    assert_eq!(divisible_by(13, 4, || "odd"), Err("odd"));
}

#[test]
fn level_default_is_ignore() {
    assert_eq!(Level::default(), Level::Ignore);
}

#[test]
fn level_error_reports_by_severity() {
    assert!(Level::Ignore.error(|| String::from("m")).is_none());
    match Level::Warning.error(|| String::from("careful")) {
        Some(Report::Warning(m)) => assert_eq!(m, "careful"),
        _ => panic!("expected a warning"),
    }
    match Level::Panic.error(|| String::from("stop")) {
        Some(Report::Panic(m)) => assert_eq!(m, "stop"),
        _ => panic!("expected a panic report"),
    }
}

#[test]
fn level_check_reports_only_failures() {
    assert!(Level::Panic.check(true, || String::from("ok")).is_none());
    match Level::Warning.check(false, || String::from("bad")) {
        Some(Report::Warning(m)) => assert_eq!(m, "bad"),
        _ => panic!("expected a warning"),
    }
    assert!(Level::Ignore.check(false, || String::from("bad")).is_none());
}

#[test]
fn flatten_optional_vector_lists_references() {
    let v = Some(vec![3, 4, 5]);
    let r = flatten_optional_vector(&v);
    assert_eq!(r, vec![&3, &4, &5]);
    let none: Option<Vec<i32>> = None;
    assert!(flatten_optional_vector(&none).is_empty());
}

#[test]
fn select_by_indices_follows_index_order() {
    let values = [10, 20, 30, 40];
    assert_eq!(select_by_indices(&values, &[3, 0, 0, 2]), vec![40, 10, 10, 30]);
    assert!(select_by_indices(&values, &[]).is_empty());
}

#[test]
fn replicate_makes_copies() {
    assert_eq!(replicate(3, String::from("a")), vec!["a", "a", "a"]);
    assert!(replicate(0, 1).is_empty());
}
