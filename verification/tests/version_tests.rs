use mup::version::{Cmp, VersionKind, VersionTag};

#[test]
fn three_component_versions_are_ideal() {
    let t = VersionTag::parse("1.9.4");
    assert_eq!(t.kind, VersionKind::Ideal);
    assert_eq!(t.chunks, vec![1, 9, 4]);
}

#[test]
fn other_numeric_versions_are_general() {
    let t = VersionTag::parse("1.9");
    assert_eq!(t.kind, VersionKind::General);
    assert_eq!(t.chunks, vec![1, 9]);
    let q = VersionTag::parse("12.16.1.1938");
    assert_eq!(q.kind, VersionKind::General);
    assert_eq!(q.chunks, vec![12, 16, 1, 1938]);
}

#[test]
fn legacy_and_sentinel_tokens_are_complex() {
    assert_eq!(VersionTag::parse("1.7.10_pre4").kind, VersionKind::Complex);
    assert_eq!(VersionTag::parse("latest").kind, VersionKind::Complex);
    assert_eq!(VersionTag::parse("").kind, VersionKind::Complex);
}

#[test]
fn leading_zeros_are_not_ideal() {
    let t = VersionTag::parse("1.09.4");
    assert_eq!(t.kind, VersionKind::General);
}

#[test]
fn comparison_is_component_wise() {
    let a = VersionTag::parse("1.9");
    let b = VersionTag::parse("1.9.4");
    assert_eq!(a.compare(&b), Cmp::Lt);
    assert_eq!(b.compare(&a), Cmp::Gt);
    assert_eq!(b.compare(&VersionTag::parse("1.9.4")), Cmp::Eq);
    assert_eq!(VersionTag::parse("1.10").compare(&VersionTag::parse("1.9")), Cmp::Gt);
}

#[test]
fn complex_versions_compare_by_numeric_prefix() {
    let legacy = VersionTag::parse("1.7.10_pre4");
    assert_eq!(legacy.compare(&VersionTag::parse("1.5.2")), Cmp::Gt);
    assert_eq!(legacy.compare(&VersionTag::parse("1.20.1")), Cmp::Lt);
}

#[test]
fn numeric_tokens_parse_to_their_value() {
    assert_eq!(mup::version::parse_u64("196"), Some(196));
    assert_eq!(mup::version::parse_u64("0"), Some(0));
    assert_eq!(mup::version::parse_u64("x1"), None);
    assert_eq!(mup::version::parse_u64(""), None);
    assert_eq!(mup::version::parse_u64("99999999999999999999999"), None);
}

#[test]
fn decimal_rendering_matches() {
    assert_eq!(mup::version::dec_str(0), "0");
    assert_eq!(mup::version::dec_str(7), "7");
    assert_eq!(mup::version::dec_str(1938), "1938");
}
