use mup::error::Error;
use mup::hangar;
use mup::loader::Loader;
use mup::modrinth;

fn paper_loader() -> Loader {
    Loader::new("paper", "1.20.1", "latest", false)
}

fn project() -> modrinth::ProjectInfo {
    modrinth::ProjectInfo {
        slug: "Sodium".to_string(),
        server_side: "required".to_string(),
        id: "AANobbMI".to_string(),
        loaders: vec!["paper".to_string(), "fabric".to_string()],
        game_versions: vec!["1.20.1".to_string(), "1.19.4".to_string()],
        versions: vec!["v1".to_string(), "v2".to_string()],
    }
}

fn version(files: Vec<modrinth::ProjectFile>, deps: Vec<modrinth::ModrinthDependency>) -> modrinth::Version {
    modrinth::Version {
        id: "v2".to_string(),
        project_id: "AANobbMI".to_string(),
        dependencies: deps,
        game_versions: vec!["1.20.1".to_string()],
        loaders: vec!["paper".to_string()],
        files,
    }
}

#[test]
fn project_checks_pass_for_compatible_project() {
    assert!(modrinth::validate_project(&project(), &paper_loader(), "v2").is_ok());
    assert!(modrinth::validate_project(&project(), &paper_loader(), "latest").is_ok());
}

#[test]
fn unsupported_server_side_is_rejected() {
    let mut p = project();
    p.server_side = "unsupported".to_string();
    assert!(matches!(
        modrinth::validate_project(&p, &paper_loader(), "latest"),
        Err(Error::IncompatiblePlatform)
    ));
}

#[test]
fn wrong_loader_is_rejected() {
    let p = project();
    let l = Loader::new("forge", "1.20.1", "latest", false);
    assert!(matches!(
        modrinth::validate_project(&p, &l, "latest"),
        Err(Error::IncompatiblePlatform)
    ));
}

#[test]
fn wrong_runtime_version_is_rejected() {
    let p = project();
    let l = Loader::new("paper", "1.8.9", "latest", false);
    assert!(matches!(
        modrinth::validate_project(&p, &l, "latest"),
        Err(Error::IncompatibleVersion)
    ));
}

#[test]
fn unknown_version_token_is_rejected() {
    assert!(matches!(
        modrinth::validate_project(&project(), &paper_loader(), "v9"),
        Err(Error::NotFound)
    ));
}

#[test]
fn specific_version_must_belong_to_the_project() {
    let mut v = version(vec![], vec![]);
    v.project_id = "other".to_string();
    assert!(matches!(
        modrinth::validate_specific_version(&v, &project(), &paper_loader()),
        Err(Error::NotFound)
    ));
}

#[test]
fn jar_file_selection_skips_other_files() {
    let files = vec![
        modrinth::ProjectFile {
            hashes: modrinth::Hashes { sha512: "aa".to_string() },
            url: "https://cdn.example/sources.zip".to_string(),
            filename: "sodium-sources.zip".to_string(),
        },
        modrinth::ProjectFile {
            hashes: modrinth::Hashes { sha512: "bb".to_string() },
            url: "https://cdn.example/sodium.jar".to_string(),
            filename: "sodium.jar".to_string(),
        },
    ];
    assert_eq!(modrinth::select_jar_file(&files), Some(1));
    assert_eq!(modrinth::select_jar_file(&Vec::new()), None);
}

#[test]
fn self_dependency_is_rejected() {
    let deps = vec![modrinth::ModrinthDependency {
        slug: String::new(),
        project_id: "AANobbMI".to_string(),
        dependency_type: "required".to_string(),
    }];
    let v = version(vec![], deps);
    let slugs = vec!["whatever".to_string()];
    assert!(matches!(
        modrinth::resolve_dependencies(&v, &project(), &slugs),
        Err(Error::SelfDependency)
    ));
}

#[test]
fn dependencies_are_normalized_lowercase() {
    let deps = vec![modrinth::ModrinthDependency {
        slug: String::new(),
        project_id: "dep99".to_string(),
        dependency_type: "required".to_string(),
    }];
    let v = version(vec![], deps);
    let slugs = vec!["LibBase".to_string()];
    let out = modrinth::resolve_dependencies(&v, &project(), &slugs).unwrap().unwrap();
    assert_eq!(out.len(), 1);
    assert_eq!(out[0].id, "dep99");
    assert_eq!(out[0].source, "modrinth");
    assert_eq!(out[0].name, "libbase");
    assert!(out[0].required);
}

#[test]
fn modrinth_descriptor_is_assembled() {
    let file = modrinth::ProjectFile {
        hashes: modrinth::Hashes { sha512: "bb".to_string() },
        url: "https://cdn.example/sodium.jar".to_string(),
        filename: "sodium.jar".to_string(),
    };
    let v = version(vec![], vec![]);
    let info = modrinth::build_info(&project(), &v, &file, None);
    assert_eq!(info.name, "Sodium");
    assert_eq!(info.id, "AANobbMI");
    assert_eq!(info.version, "v2");
    assert_eq!(info.source, "modrinth");
    assert_eq!(info.download_url, "https://cdn.example/sodium.jar");
    let cs = info.checksum.unwrap();
    assert_eq!(cs.method, "sha512");
    assert_eq!(cs.hash, "bb");
}

#[test]
fn hangar_platform_lookup_finds_key() {
    let entries = vec![
        ("PAPER".to_string(), vec!["1.20.1".to_string()]),
        ("WATERFALL".to_string(), vec!["1.19".to_string()]),
    ];
    assert_eq!(hangar::find_platform(&entries, "PAPER"), Some(0));
    assert_eq!(hangar::find_platform(&entries, "VELOCITY"), None);
}

#[test]
fn hangar_compatibility_is_exact_equality() {
    let list = vec!["1.19.4".to_string(), "1.20.1".to_string()];
    assert!(hangar::version_compatible(&list, "1.20.1"));
    assert!(!hangar::version_compatible(&list, "1.20.2"));
    let loose = vec!["1.20.x".to_string()];
    assert!(!hangar::version_compatible(&loose, "1.20.1"));
}

#[test]
fn hangar_descriptor_is_assembled() {
    let d = hangar::HangarDownload {
        url: "https://hangar.example/dl".to_string(),
        sha256: "cc".to_string(),
    };
    let deps = hangar::build_dependencies(&vec![hangar::HangarDependency {
        project_id: "77".to_string(),
        name: "LibBase".to_string(),
        required: true,
    }]);
    let info = hangar::build_info("EssentialsX", "2.20.1", &d, Some(deps));
    assert_eq!(info.name, "EssentialsX");
    assert_eq!(info.id, "EssentialsX");
    assert_eq!(info.source, "hangar");
    let ds = info.dependencies.unwrap();
    assert_eq!(ds[0].name, "libbase");
    assert_eq!(ds[0].source, "hangar");
    let cs = info.checksum.unwrap();
    assert_eq!(cs.method, "sha256");
    assert_eq!(cs.hash, "cc");
}
