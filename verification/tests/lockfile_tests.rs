use mup::error::Error;
use mup::lockfile::Lockfile;
use mup::plugin::{Checksum, Dependency, Info};

fn record(name: &str, id: &str, deps: Option<Vec<Dependency>>) -> Info {
    Info {
        name: name.to_string(),
        id: id.to_string(),
        version: "1.0.0".to_string(),
        source: "modrinth".to_string(),
        download_url: format!("https://cdn.example/{id}/file.jar"),
        dependencies: deps,
        checksum: Some(Checksum { method: "sha512".to_string(), hash: "ab".to_string() }),
    }
}

fn dep(name: &str, id: &str, required: bool) -> Dependency {
    Dependency {
        id: id.to_string(),
        source: "modrinth".to_string(),
        name: name.to_string(),
        required,
    }
}

#[test]
fn fresh_lockfile_is_not_initialized() {
    let lf = Lockfile::new_empty();
    assert!(!lf.is_initialized());
}

#[test]
fn with_params_initializes_with_valid_version() {
    let lf = Lockfile::with_params("1.20.1", "paper").unwrap();
    assert!(lf.is_initialized());
    assert_eq!(lf.loader.name, "paper");
    assert_eq!(lf.loader.minecraft_version, "1.20.1");
    assert_eq!(lf.loader.version, "latest");
    assert!(!lf.loader.snapshot);
    assert!(lf.mods.is_empty());
}

#[test]
fn with_params_rejects_the_latest_sentinel() {
    match Lockfile::with_params("latest", "paper") {
        Err(e @ Error::InvalidVersion { .. }) => {
            assert_eq!(e.message(), "invalid minecraft version latest");
        }
        _ => panic!("the latest sentinel does not name a concrete version"),
    }
}

#[test]
fn with_params_rejects_garbage_versions() {
    assert!(matches!(
        Lockfile::with_params("not-a-version", "paper"),
        Err(Error::InvalidVersion { .. })
    ));
}

#[test]
fn with_params_keeps_none_uninitialized() {
    let lf = Lockfile::with_params("1.20.1", "none").unwrap();
    assert!(!lf.is_initialized());
}

#[test]
fn get_finds_by_name_or_id() {
    let mut lf = Lockfile::with_params("1.20.1", "paper").unwrap();
    lf.add(record("sodium", "AANobbMI", None));
    assert_eq!(lf.get("sodium").unwrap().id, "AANobbMI");
    assert_eq!(lf.get("AANobbMI").unwrap().name, "sodium");
    assert!(matches!(lf.get("lithium"), Err(Error::NotFound)));
}

#[test]
fn add_replaces_a_record_with_the_same_identity() {
    let mut lf = Lockfile::with_params("1.20.1", "paper").unwrap();
    lf.add(record("sodium", "AANobbMI", None));
    let mut updated = record("sodium", "AANobbMI", None);
    updated.version = "2.0.0".to_string();
    lf.add(updated);
    assert_eq!(lf.mods.len(), 1);
    assert_eq!(lf.get("sodium").unwrap().version, "2.0.0");
}

#[test]
fn remove_missing_key_is_rejected() {
    let mut lf = Lockfile::with_params("1.20.1", "paper").unwrap();
    assert!(matches!(lf.remove("nothing", false), Err(Error::NotFound)));
}

#[test]
fn remove_without_orphans_keeps_dependencies() {
    let mut lf = Lockfile::with_params("1.20.1", "paper").unwrap();
    lf.add(record("libbase", "lib1", None));
    lf.add(record("mainmod", "main1", Some(vec![dep("libbase", "lib1", true)])));
    let removed = lf.remove("mainmod", false).unwrap();
    assert_eq!(removed.len(), 1);
    assert_eq!(removed[0].name, "mainmod");
    assert_eq!(lf.mods.len(), 1);
    assert_eq!(lf.mods[0].name, "libbase");
}

#[test]
fn remove_orphans_drops_unrequired_dependency() {
    let mut lf = Lockfile::with_params("1.20.1", "paper").unwrap();
    lf.add(record("libbase", "lib1", None));
    lf.add(record("mainmod", "main1", Some(vec![dep("libbase", "lib1", true)])));
    let removed = lf.remove("mainmod", true).unwrap();
    assert_eq!(removed.len(), 2);
    assert_eq!(removed[0].name, "mainmod");
    assert_eq!(removed[1].name, "libbase");
    assert!(lf.mods.is_empty());
}

#[test]
fn remove_orphans_keeps_dependency_required_elsewhere() {
    let mut lf = Lockfile::with_params("1.20.1", "paper").unwrap();
    lf.add(record("libbase", "lib1", None));
    lf.add(record("mainmod", "main1", Some(vec![dep("libbase", "lib1", true)])));
    lf.add(record("othermod", "other1", Some(vec![dep("libbase", "lib1", true)])));
    let removed = lf.remove("mainmod", true).unwrap();
    assert_eq!(removed.len(), 1);
    assert_eq!(removed[0].name, "mainmod");
    assert_eq!(lf.mods.len(), 2);
    assert_eq!(lf.mods[0].name, "libbase");
    assert_eq!(lf.mods[1].name, "othermod");
}

#[test]
fn remove_orphans_ignores_optional_references() {
    let mut lf = Lockfile::with_params("1.20.1", "paper").unwrap();
    lf.add(record("libbase", "lib1", None));
    lf.add(record("mainmod", "main1", Some(vec![dep("libbase", "lib1", true)])));
    lf.add(record("othermod", "other1", Some(vec![dep("libbase", "lib1", false)])));
    let removed = lf.remove("mainmod", true).unwrap();
    assert_eq!(removed.len(), 2);
    assert_eq!(removed[1].name, "libbase");
    assert_eq!(lf.mods.len(), 1);
    assert_eq!(lf.mods[0].name, "othermod");
}
