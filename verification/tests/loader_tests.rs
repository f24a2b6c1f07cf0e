use mup::error::Error;
use mup::fabric;
use mup::loader::Loader;
use mup::neoforge;
use mup::paper;
use mup::plugin::Info;
use mup::project;
use mup::server;
use mup::vanilla;

#[test]
fn parse_name_accepts_the_supported_families() {
    for name in ["paper", "fabric", "forge", "neoforge"] {
        assert_eq!(Loader::parse_name(name).unwrap(), name);
    }
    assert!(matches!(Loader::parse_name("vanilla"), Err(Error::UnknownLoader)));
    assert!(matches!(Loader::parse_name("spigot"), Err(Error::UnknownLoader)));
}

#[test]
fn mod_location_depends_on_the_family() {
    assert_eq!(Loader::new("paper", "1.20.1", "latest", false).mod_location(), "plugins");
    assert_eq!(Loader::new("fabric", "1.20.1", "latest", false).mod_location(), "mods");
    assert_eq!(Loader::new("forge", "1.20.1", "latest", false).mod_location(), "mods");
}

#[test]
fn default_loader_is_the_none_sentinel() {
    let l = Loader::default();
    assert_eq!(l.name, "none");
    assert_eq!(l.minecraft_version, "latest");
    assert_eq!(l.version, "latest");
    assert!(!l.snapshot);
}

#[test]
fn file_path_joins_location_and_url_file_name() {
    let l = Loader::new("paper", "1.20.1", "latest", false);
    let info = Info {
        name: "x".to_string(),
        id: "x1".to_string(),
        version: "1".to_string(),
        source: "modrinth".to_string(),
        download_url: "https://cdn.example/a/b/sodium.jar".to_string(),
        dependencies: None,
        checksum: None,
    };
    assert_eq!(info.get_file_path(&l), "plugins/sodium.jar");
    let fabric_loader = Loader::new("fabric", "1.20.1", "latest", false);
    assert_eq!(info.get_file_path(&fabric_loader), "mods/sodium.jar");
}

#[test]
fn fabric_selects_latest_or_exact() {
    let versions = vec!["0.15.0".to_string(), "0.14.9".to_string()];
    assert_eq!(fabric::select_version(&versions, "latest").unwrap(), "0.15.0");
    assert_eq!(fabric::select_version(&versions, "0.14.9").unwrap(), "0.14.9");
    assert!(matches!(
        fabric::select_version(&versions, "0.1.0"),
        Err(Error::VersionNotFound)
    ));
    assert!(matches!(
        fabric::select_version(&Vec::new(), "latest"),
        Err(Error::NotFound)
    ));
}

#[test]
fn fabric_urls_are_assembled() {
    let url = fabric::server_jar_url("1.20.1", "0.15.0", "1.0.0");
    assert_eq!(
        url,
        "https://meta.fabricmc.net/v2/versions/loader/1.20.1/0.15.0/1.0.0/server/jar"
    );
    assert_eq!(fabric::jar_filename("1.20.1", "0.15.0"), "fabric-1.20.1-0.15.0.jar");
}

#[test]
fn paper_picks_last_version_and_first_build() {
    let versions = vec!["1.19.4".to_string(), "1.20.1".to_string()];
    assert_eq!(paper::latest_version(&versions).unwrap(), "1.20.1");
    assert!(matches!(paper::latest_version(&Vec::new()), Err(Error::NotFound)));

    let builds = vec![(196, "aa".to_string()), (195, "bb".to_string())];
    let (b, sha) = paper::get_build(&builds, "latest").unwrap();
    assert_eq!(b, 196);
    assert_eq!(sha, "aa");
    let (b2, _) = paper::get_build(&builds, "195").unwrap();
    assert_eq!(b2, 195);
    assert!(matches!(paper::get_build(&builds, "10"), Err(Error::VersionNotFound)));
    assert!(matches!(
        paper::get_build(&builds, "x1"),
        Err(Error::InvalidVersion { .. })
    ));
}

#[test]
fn paper_urls_are_assembled() {
    assert_eq!(
        paper::build_url("1.20.1", 196),
        "https://api.papermc.io/v2/projects/paper/versions/1.20.1/builds/196/downloads/paper-1.20.1-196.jar"
    );
    assert_eq!(paper::jar_filename("1.20.1", 196), "paper-1.20.1-196.jar");
}

#[test]
fn neoforge_filter_follows_the_cutoff() {
    assert_eq!(neoforge::filter_suffix("1.20.4").unwrap(), "20.4");
    match neoforge::filter_suffix("1.20.1") {
        Err(e @ Error::InvalidVersion { .. }) => {
            assert_eq!(e.message(), "use forge for minecraft versions before 1.20.2");
        }
        _ => panic!("a pre-cutoff version must be rejected"),
    }
    assert!(matches!(
        neoforge::filter_suffix("1.20"),
        Err(Error::InvalidVersion { .. })
    ));
}

#[test]
fn neoforge_rejects_the_latest_sentinel() {
    match neoforge::filter_suffix("latest") {
        Err(e @ Error::InvalidVersion { .. }) => {
            assert_eq!(e.message(), "a concrete minecraft version is required");
        }
        _ => panic!("the latest sentinel is ambiguous and must be rejected"),
    }
}

#[test]
fn neoforge_urls_are_assembled() {
    assert_eq!(
        neoforge::installer_url("20.4.237"),
        "https://maven.neoforged.net/releases/net/neoforged/neoforge/20.4.237/neoforge-20.4.237-installer.jar"
    );
    assert_eq!(
        neoforge::jar_filename("1.20.4", "20.4.237"),
        "neoforge-1.20.4-20.4.237.jar"
    );
}

#[test]
fn vanilla_selects_release_snapshot_or_exact() {
    let versions = vec![
        vanilla::VanillaVersion {
            id: "24w09a".to_string(),
            version_type: "snapshot".to_string(),
            url: "https://mc.example/24w09a.json".to_string(),
        },
        vanilla::VanillaVersion {
            id: "1.20.4".to_string(),
            version_type: "release".to_string(),
            url: "https://mc.example/1.20.4.json".to_string(),
        },
    ];
    let i = vanilla::select_version("1.20.4", "24w09a", &versions, "latest", false).unwrap();
    assert_eq!(versions[i].id, "1.20.4");
    let j = vanilla::select_version("1.20.4", "24w09a", &versions, "latest", true).unwrap();
    assert_eq!(versions[j].id, "24w09a");
    let k = vanilla::select_version("1.20.4", "24w09a", &versions, "1.20.4", false).unwrap();
    assert_eq!(versions[k].id, "1.20.4");
    assert!(matches!(
        vanilla::select_version("1.20.4", "24w09a", &versions, "1.8.9", false),
        Err(Error::NotFound)
    ));
}

#[test]
fn vanilla_snapshot_requires_the_flag() {
    assert!(vanilla::check_snapshot("release", false).is_ok());
    assert!(vanilla::check_snapshot("snapshot", true).is_ok());
    assert!(matches!(
        vanilla::check_snapshot("snapshot", false),
        Err(Error::IncompatibleVersion)
    ));
    assert_eq!(vanilla::jar_filename("1.20.4"), "vanilla-1.20.4-server.jar");
}

#[test]
fn server_init_validates_the_configuration() {
    let lf = server::init("1.20.1", "paper").unwrap();
    assert!(lf.is_initialized());
    assert!(matches!(
        server::init("latest", "paper"),
        Err(Error::InvalidVersion { .. })
    ));
    assert!(matches!(server::init("1.20.1", "none"), Err(Error::NotInitialized)));
}

#[test]
fn server_install_lists_every_record() {
    let mut lf = server::init("1.20.1", "paper").unwrap();
    lf.add(Info {
        name: "x".to_string(),
        id: "x1".to_string(),
        version: "1".to_string(),
        source: "modrinth".to_string(),
        download_url: "https://cdn.example/x.jar".to_string(),
        dependencies: None,
        checksum: None,
    });
    let targets = server::install(&lf).unwrap();
    assert_eq!(targets.len(), 1);
    assert_eq!(targets[0].id, "x1");
    let empty = mup::lockfile::Lockfile::new_empty();
    assert!(matches!(server::install(&empty), Err(Error::NotInitialized)));
}

#[test]
fn eula_contents_are_fixed() {
    assert_eq!(server::eula_contents(), "# Signed by mup\neula=true");
}

#[test]
fn project_actions_require_initialization() {
    let lf = mup::lockfile::Lockfile::new_empty();
    let op = project::Project::Remove { slug: "x".to_string(), keep_jarfile: false };
    assert!(matches!(project::action(&lf, &op), Err(Error::NotInitialized)));
    let ready = server::init("1.20.1", "paper").unwrap();
    assert_eq!(project::action(&ready, &op).unwrap(), "x");
    let add = project::Project::Add { id: "sodium".to_string(), version_id: None };
    assert_eq!(project::action(&ready, &add).unwrap(), "sodium");
}

#[test]
fn error_messages_name_the_digests() {
    let e = Error::ChecksumMismatch { expected: "aa".to_string(), actual: "bb".to_string() };
    assert_eq!(e.message(), "hashes do not match, expected aa but got bb");
}
