use mup::error::Error;
use mup::lockfile::Lockfile;
use mup::plugin::{Checksum, Dependency, Info};
use mup::resolver;
use mup::resolver::Step;

fn descriptor(name: &str, id: &str, deps: Option<Vec<Dependency>>) -> Info {
    Info {
        name: name.to_string(),
        id: id.to_string(),
        version: "v1".to_string(),
        source: "modrinth".to_string(),
        download_url: format!("https://cdn.example/{id}/file.jar"),
        dependencies: deps,
        checksum: Some(Checksum { method: "sha512".to_string(), hash: "cd".to_string() }),
    }
}

fn dep(name: &str, id: &str, required: bool) -> Dependency {
    Dependency {
        id: id.to_string(),
        source: "modrinth".to_string(),
        name: name.to_string(),
        required,
    }
}

#[test]
fn add_requires_an_initialized_lockfile() {
    let lf = Lockfile::new_empty();
    let r = resolver::add(&lf, "modrinth", "mainmod", "latest", false);
    assert!(matches!(r, Err(Error::NotInitialized)));
}

#[test]
fn add_installs_artifact_and_required_dependency() {
    let mut lf = Lockfile::with_params("1.20.1", "paper").unwrap();
    let mut res = resolver::add(&lf, "modrinth", "mainmod", "latest", false).unwrap();

    match res.next_step(&lf) {
        Step::Fetch(t) => {
            assert_eq!(t.id, "mainmod");
            assert!(t.root);
        }
        _ => panic!("expected a fetch step"),
    }
    res.on_descriptor(descriptor("mainmod", "main1", Some(vec![dep("libbase", "lib1", true)])))
        .unwrap();

    match res.next_step(&lf) {
        Step::Fetch(t) => {
            assert_eq!(t.id, "lib1");
            assert_eq!(t.version, "latest");
            assert!(!t.root);
        }
        _ => panic!("expected a dependency fetch"),
    }
    res.on_descriptor(descriptor("libbase", "lib1", None)).unwrap();

    match res.next_step(&lf) {
        Step::Download(m) => assert_eq!(m.id, "lib1"),
        _ => panic!("expected the dependency download"),
    }
    res.on_downloaded(&mut lf);

    match res.next_step(&lf) {
        Step::Download(m) => assert_eq!(m.id, "main1"),
        _ => panic!("expected the artifact download"),
    }
    res.on_downloaded(&mut lf);

    assert!(matches!(res.next_step(&lf), Step::Done));
    assert_eq!(lf.mods.len(), 2);
    assert_eq!(lf.mods[0].id, "lib1");
    assert_eq!(lf.mods[1].id, "main1");
}

#[test]
fn add_with_no_deps_installs_only_the_artifact() {
    let mut lf = Lockfile::with_params("1.20.1", "paper").unwrap();
    let mut res = resolver::add(&lf, "modrinth", "mainmod", "latest", true).unwrap();

    assert!(matches!(res.next_step(&lf), Step::Fetch(_)));
    res.on_descriptor(descriptor("mainmod", "main1", Some(vec![dep("libbase", "lib1", true)])))
        .unwrap();

    match res.next_step(&lf) {
        Step::Download(m) => assert_eq!(m.id, "main1"),
        _ => panic!("expected the artifact download"),
    }
    res.on_downloaded(&mut lf);

    assert!(matches!(res.next_step(&lf), Step::Done));
    assert_eq!(lf.mods.len(), 1);
    assert_eq!(lf.mods[0].id, "main1");
    assert!(lf.get("libbase").is_err());
}

#[test]
fn second_add_of_same_id_is_rejected() {
    let mut lf = Lockfile::with_params("1.20.1", "paper").unwrap();
    let mut res = resolver::add(&lf, "modrinth", "mainmod", "latest", true).unwrap();
    assert!(matches!(res.next_step(&lf), Step::Fetch(_)));
    res.on_descriptor(descriptor("mainmod", "main1", None)).unwrap();
    res.on_downloaded(&mut lf);
    assert!(matches!(res.next_step(&lf), Step::Done));

    let again = resolver::add(&lf, "modrinth", "mainmod", "latest", true);
    assert!(matches!(again, Err(Error::AlreadyInstalled)));
}

#[test]
fn optional_dependency_is_skipped() {
    let mut lf = Lockfile::with_params("1.20.1", "paper").unwrap();
    let mut res = resolver::add(&lf, "modrinth", "mainmod", "latest", false).unwrap();
    assert!(matches!(res.next_step(&lf), Step::Fetch(_)));
    res.on_descriptor(descriptor("mainmod", "main1", Some(vec![dep("libbase", "lib1", false)])))
        .unwrap();
    match res.next_step(&lf) {
        Step::Download(m) => assert_eq!(m.id, "main1"),
        _ => panic!("optional dependency should not be fetched"),
    }
}

#[test]
fn installed_dependency_is_skipped_with_no_refetch() {
    let mut lf = Lockfile::with_params("1.20.1", "paper").unwrap();
    lf.add(descriptor("libbase", "lib1", None));
    let mut res = resolver::add(&lf, "modrinth", "mainmod", "latest", false).unwrap();
    assert!(matches!(res.next_step(&lf), Step::Fetch(_)));
    res.on_descriptor(descriptor("mainmod", "main1", Some(vec![dep("libbase", "lib1", true)])))
        .unwrap();
    match res.next_step(&lf) {
        Step::Download(m) => assert_eq!(m.id, "main1"),
        _ => panic!("installed dependency should be skipped"),
    }
}

#[test]
fn self_dependency_cycles_are_rejected() {
    let lf = Lockfile::with_params("1.20.1", "paper").unwrap();
    let mut res = resolver::add(&lf, "modrinth", "mainmod", "latest", false).unwrap();
    assert!(matches!(res.next_step(&lf), Step::Fetch(_)));
    let r = res.on_descriptor(descriptor(
        "mainmod",
        "main1",
        Some(vec![dep("mainmod", "main1", true)]),
    ));
    assert!(matches!(r, Err(Error::CyclicDependency)));
}

#[test]
fn mutual_cycles_are_rejected() {
    let lf = Lockfile::with_params("1.20.1", "paper").unwrap();
    let mut res = resolver::add(&lf, "modrinth", "a", "latest", false).unwrap();
    assert!(matches!(res.next_step(&lf), Step::Fetch(_)));
    res.on_descriptor(descriptor("a", "id-a", Some(vec![dep("b", "id-b", true)]))).unwrap();
    assert!(matches!(res.next_step(&lf), Step::Fetch(_)));
    let r = res.on_descriptor(descriptor("b", "id-b", Some(vec![dep("a", "id-a", true)])));
    assert!(matches!(r, Err(Error::CyclicDependency)));
}

#[test]
fn update_all_expands_to_every_installed_artifact() {
    let mut lf = Lockfile::with_params("1.20.1", "paper").unwrap();
    lf.add(descriptor("alpha", "id-a", None));
    lf.add(descriptor("beta", "id-b", None));
    let tasks = resolver::update(&lf, "all", "latest", false).unwrap();
    assert_eq!(tasks.len(), 2);
    assert_eq!(tasks[0].id, "alpha");
    assert_eq!(tasks[1].id, "beta");
    assert_eq!(tasks[0].provider, "modrinth");
}

#[test]
fn update_single_names_one_artifact() {
    let mut lf = Lockfile::with_params("1.20.1", "paper").unwrap();
    lf.add(descriptor("alpha", "id-a", None));
    let tasks = resolver::update(&lf, "alpha", "v2", true).unwrap();
    assert_eq!(tasks.len(), 1);
    assert_eq!(tasks[0].id, "alpha");
    assert_eq!(tasks[0].version, "v2");
}

#[test]
fn update_requires_initialization() {
    let lf = Lockfile::new_empty();
    assert!(matches!(
        resolver::update(&lf, "all", "latest", false),
        Err(Error::NotInitialized)
    ));
}

#[test]
fn include_optional_follows_optional_dependencies() {
    let lf = Lockfile::with_params("1.20.1", "paper").unwrap();
    let task = mup::resolver::Task {
        provider: "modrinth".to_string(),
        id: "mainmod".to_string(),
        name: "mainmod".to_string(),
        version: "latest".to_string(),
        root: true,
    };
    let mut res = mup::resolver::Resolver {
        jobs: vec![mup::resolver::Job::Resolve(task)],
        no_deps: false,
        include_optional: true,
    };
    assert!(matches!(res.next_step(&lf), Step::Fetch(_)));
    res.on_descriptor(descriptor("mainmod", "main1", Some(vec![dep("libbase", "lib1", false)])))
        .unwrap();
    match res.next_step(&lf) {
        Step::Fetch(t) => assert_eq!(t.id, "lib1"),
        _ => panic!("optional dependency should be followed when asked"),
    }
}

#[test]
fn dependency_order_is_declared_order() {
    let mut lf = Lockfile::with_params("1.20.1", "paper").unwrap();
    let mut res = resolver::add(&lf, "modrinth", "mainmod", "latest", false).unwrap();
    assert!(matches!(res.next_step(&lf), Step::Fetch(_)));
    res.on_descriptor(descriptor(
        "mainmod",
        "main1",
        Some(vec![dep("first", "dep1", true), dep("second", "dep2", true)]),
    ))
    .unwrap();
    match res.next_step(&lf) {
        Step::Fetch(t) => assert_eq!(t.id, "dep1"),
        _ => panic!("expected the first declared dependency"),
    }
    res.on_descriptor(descriptor("first", "dep1", None)).unwrap();
    res.on_downloaded(&mut lf);
    match res.next_step(&lf) {
        Step::Fetch(t) => assert_eq!(t.id, "dep2"),
        _ => panic!("expected the second declared dependency"),
    }
    res.on_descriptor(descriptor("second", "dep2", None)).unwrap();
    res.on_downloaded(&mut lf);
    res.on_downloaded(&mut lf);
    assert_eq!(lf.mods[0].id, "dep1");
    assert_eq!(lf.mods[1].id, "dep2");
    assert_eq!(lf.mods[2].id, "main1");
}

#[test]
fn add_with_options_follows_optional_dependencies() {
    let mut lf = Lockfile::with_params("1.20.1", "paper").unwrap();
    let mut res =
        resolver::add_with_options(&lf, "modrinth", "mainmod", "latest", false, true).unwrap();
    assert!(matches!(res.next_step(&lf), Step::Fetch(_)));
    res.on_descriptor(descriptor("mainmod", "main1", Some(vec![dep("libbase", "lib1", false)])))
        .unwrap();
    match res.next_step(&lf) {
        Step::Fetch(t) => assert_eq!(t.id, "lib1"),
        _ => panic!("optional dependency should be followed when asked"),
    }
    res.on_descriptor(descriptor("libbase", "lib1", None)).unwrap();
    res.on_downloaded(&mut lf);
    res.on_downloaded(&mut lf);
    assert!(matches!(res.next_step(&lf), Step::Done));
    assert_eq!(lf.mods.len(), 2);
}
