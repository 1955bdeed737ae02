use multiversion::cpu_features::{const_slice_eq, CpuFeatures};
use multiversion::strings::eq;

#[test]
fn equal() {
    assert!(const_slice_eq("a".as_bytes(), "a".as_bytes()));
    assert!(!const_slice_eq("a".as_bytes(), "b".as_bytes()));
    assert!(!const_slice_eq("a".as_bytes(), "ab".as_bytes()));
    assert!(const_slice_eq("foo".as_bytes(), "foo".as_bytes()));
    assert!(!const_slice_eq("foo".as_bytes(), "foobar".as_bytes()));
    assert!(!const_slice_eq("foo".as_bytes(), "bar".as_bytes()));
}

#[test]
fn contains() {
    let features = CpuFeatures::new(&["a", "b", "foo", "bar", "baz!"]);
    assert!(features.supports("a"));
    assert!(features.supports("foo"));
    assert!(features.supports("baz!"));
    assert!(!features.supports("baz"));
    assert!(!features.supports("foobar"));
}

#[test]
fn no_features_supports_nothing() {
    let features = CpuFeatures::none();
    assert!(!features.supports("a"));
    assert!(!features.supports(""));
}

#[test]
fn str_equality() {
    assert!(eq("avx", "avx"));
    assert!(!eq("avx", "avx2"));
    assert!(!eq("", "a"));
    assert!(eq("", ""));
    assert!(eq("ü", "ü"));
    assert!(!eq("ü", "u"));
}
