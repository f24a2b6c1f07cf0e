use mup::error::Error;
use mup::forge;

#[test]
fn ideal_tag_repeats_runtime_suffix() {
    let tag = forge::get_version_tag("1.9.4", "12.17.0.2317").unwrap();
    assert_eq!(tag, "1.9.4-12.17.0.2317-1.9.4");
}

#[test]
fn general_tag_appends_zero_component() {
    let tag = forge::get_version_tag("1.9", "12.16.1.1938").unwrap();
    assert_eq!(tag, "1.9-12.16.1.1938-1.9.0");
}

#[test]
fn below_lower_cutoff_is_rejected() {
    let r = forge::get_version_tag("1.2.5", "3.4.9.171");
    match r {
        Err(e @ Error::InvalidVersion { .. }) => {
            assert_eq!(
                e.message(),
                "forge does not provide installer jarfiles before Minecraft 1.5.2"
            );
        }
        _ => panic!("a version below the lower cutoff must be rejected"),
    }
    let r2 = forge::get_version_tag("1.2.5", "12.17.0.2317");
    assert!(matches!(r2, Err(Error::InvalidVersion { .. })));
}

#[test]
fn above_upper_cutoff_is_rejected() {
    match forge::get_version_tag("1.20.2", "48.0.1") {
        Err(e @ Error::InvalidVersion { .. }) => {
            assert_eq!(e.message(), "use neoforge for minecraft versions after 1.20.1");
        }
        _ => panic!("a version above the upper cutoff must be rejected"),
    }
}

#[test]
fn plain_ideal_tag_has_no_suffix() {
    let tag = forge::get_version_tag("1.12.2", "14.23.5.2860").unwrap();
    assert_eq!(tag, "1.12.2-14.23.5.2860");
}

#[test]
fn legacy_mc172_tag() {
    let tag = forge::get_version_tag("1.7.2", "10.12.2.1161").unwrap();
    assert_eq!(tag, "1.7.2-10.12.2.1161-mc172");
}

#[test]
fn complex_runtime_uses_prerelease_tag() {
    let tag = forge::get_version_tag("1.7.10_pre4", "10.12.2.1149").unwrap();
    assert_eq!(tag, "1.7.10_pre4-10.12.2.1149-prerelease");
}

#[test]
fn general_double_suffix_before_cutoff() {
    let tag = forge::get_version_tag("1.9", "12.16.0.1885").unwrap();
    assert_eq!(tag, "1.9-12.16.0.1885-1.9");
}

#[test]
fn promo_build_resolves_latest_key() {
    let promos = vec![
        ("1.20.1-latest".to_string(), "47.2.0".to_string()),
        ("1.20.1-recommended".to_string(), "47.1.0".to_string()),
    ];
    let b = forge::promo_build(&promos, "1.20.1", "latest").unwrap();
    assert_eq!(b, "47.2.0");
    let r = forge::promo_build(&promos, "1.20.1", "recommended").unwrap();
    assert_eq!(r, "47.1.0");
}

#[test]
fn promo_build_passes_concrete_token_through() {
    let promos = vec![("1.20.1-latest".to_string(), "47.2.0".to_string())];
    let b = forge::promo_build(&promos, "1.20.1", "47.0.35").unwrap();
    assert_eq!(b, "47.0.35");
}

#[test]
fn promo_build_missing_key_is_rejected() {
    let promos = vec![("1.20.1-latest".to_string(), "47.2.0".to_string())];
    let r = forge::promo_build(&promos, "1.19.4", "latest");
    assert!(matches!(r, Err(Error::VersionNotFound)));
}

#[test]
fn latest_minecraft_picks_greatest_prefix() {
    let keys = vec![
        "1.19.4-latest".to_string(),
        "1.20.1-latest".to_string(),
        "1.7.10-recommended".to_string(),
    ];
    let m = forge::latest_minecraft(&keys).unwrap();
    assert_eq!(m, "1.20.1");
}

#[test]
fn installer_urls_are_assembled() {
    let (url, filename) = forge::installer_urls("1.9-12.16.1.1938-1.9.0", "1.9", "12.16.1.1938");
    assert_eq!(
        url,
        "https://maven.minecraftforge.net/net/minecraftforge/forge/1.9-12.16.1.1938-1.9.0/forge-1.9-12.16.1.1938-1.9.0-installer.jar"
    );
    assert_eq!(filename, "forge-1.9-12.16.1.1938.jar");
}
