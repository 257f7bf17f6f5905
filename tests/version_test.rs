use terrarium::version::{parse_u64, parse_version, select_latest, version_less, InstalledVersion};

fn inst(name: &str, has_runtime: bool) -> InstalledVersion {
    InstalledVersion { name: name.to_string(), has_runtime }
}

#[test]
fn version_keys() {
    assert_eq!(parse_version("v18.2.0"), vec![18, 2, 0]);
    assert_eq!(parse_version("9.11.1"), vec![9, 11, 1]);
    assert_eq!(parse_version("vv1..x.3"), vec![1, 3]);
    assert_eq!(parse_version(""), Vec::<u64>::new());
    assert_eq!(parse_version("v+7.18446744073709551616"), vec![7]);
}

#[test]
fn integer_texts() {
    assert_eq!(parse_u64("42"), Some(42));
    assert_eq!(parse_u64("+42"), Some(42));
    assert_eq!(parse_u64("+"), None);
    assert_eq!(parse_u64(""), None);
    assert_eq!(parse_u64("4a"), None);
    assert_eq!(parse_u64("18446744073709551615"), Some(u64::MAX));
    assert_eq!(parse_u64("18446744073709551616"), None);
}

#[test]
fn numeric_not_lexicographic_order() {
    assert!(version_less(&vec![9, 0, 0], &vec![18, 0, 0]));
    assert!(!version_less(&vec![18, 0, 0], &vec![9, 0, 0]));
    assert!(version_less(&vec![1, 2], &vec![1, 2, 0]));
    assert!(!version_less(&vec![1, 2], &vec![1, 2]));
}

#[test]
fn selects_numerically_greatest() {
    let v = vec![inst("v9.0.0", true), inst("v18.0.0", true), inst("v10.1.0", true)];
    assert_eq!(select_latest(&v), Some(1));
    let v = vec![inst("9.0.0", true), inst("18.0.0", true)];
    assert_eq!(select_latest(&v), Some(1));
}

#[test]
fn select_skips_dirs_without_runtime() {
    let v = vec![inst("v20.0.0", false), inst("v18.0.0", true)];
    assert_eq!(select_latest(&v), Some(1));
    assert_eq!(select_latest(&vec![inst("v20.0.0", false)]), None);
    assert_eq!(select_latest(&Vec::new()), None);
}

#[test]
fn select_prefers_last_of_equal_versions() {
    let v = vec![inst("v18.0.0", true), inst("18.0.0", true), inst("v1.0.0", true)];
    assert_eq!(select_latest(&v), Some(1));
}
