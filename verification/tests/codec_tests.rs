use mup::codec;
use mup::lockfile::Lockfile;
use mup::plugin::{Checksum, Dependency, Info};

fn sample_lockfile() -> Lockfile {
    let mut lf = Lockfile::with_params("1.20.1", "paper").unwrap();
    lf.add(Info {
        name: "libbase".to_string(),
        id: "lib1".to_string(),
        version: "0.9.1".to_string(),
        source: "modrinth".to_string(),
        download_url: "https://cdn.example/lib1/file.jar".to_string(),
        dependencies: None,
        checksum: None,
    });
    lf.add(Info {
        name: "mainmod".to_string(),
        id: "main1".to_string(),
        version: "1.2.3".to_string(),
        source: "hangar".to_string(),
        download_url: "https://cdn.example/main1/file.jar".to_string(),
        dependencies: Some(vec![
            Dependency {
                id: "lib1".to_string(),
                source: "modrinth".to_string(),
                name: "libbase".to_string(),
                required: true,
            },
            Dependency {
                id: "opt1".to_string(),
                source: "modrinth".to_string(),
                name: "optional-extra".to_string(),
                required: false,
            },
        ]),
        checksum: Some(Checksum { method: "sha256".to_string(), hash: "0011aabb".to_string() }),
    });
    lf
}

fn assert_same(a: &Lockfile, b: &Lockfile) {
    assert_eq!(a.loader.name, b.loader.name);
    assert_eq!(a.loader.minecraft_version, b.loader.minecraft_version);
    assert_eq!(a.loader.version, b.loader.version);
    assert_eq!(a.loader.snapshot, b.loader.snapshot);
    assert_eq!(a.mods.len(), b.mods.len());
    for (x, y) in a.mods.iter().zip(b.mods.iter()) {
        assert_eq!(x.name, y.name);
        assert_eq!(x.id, y.id);
        assert_eq!(x.version, y.version);
        assert_eq!(x.source, y.source);
        assert_eq!(x.download_url, y.download_url);
        match (&x.dependencies, &y.dependencies) {
            (None, None) => {}
            (Some(dx), Some(dy)) => {
                assert_eq!(dx.len(), dy.len());
                for (dxx, dyy) in dx.iter().zip(dy.iter()) {
                    assert_eq!(dxx.id, dyy.id);
                    assert_eq!(dxx.source, dyy.source);
                    assert_eq!(dxx.name, dyy.name);
                    assert_eq!(dxx.required, dyy.required);
                }
            }
            _ => panic!("dependency blocks differ"),
        }
        match (&x.checksum, &y.checksum) {
            (None, None) => {}
            (Some(cx), Some(cy)) => {
                assert_eq!(cx.method, cy.method);
                assert_eq!(cx.hash, cy.hash);
            }
            _ => panic!("checksum blocks differ"),
        }
    }
}

#[test]
fn round_trip_preserves_the_lockfile() {
    let lf = sample_lockfile();
    assert!(codec::encodable(&lf));
    let doc = codec::encode_lockfile(&lf);
    let back = codec::parse_lockfile(doc.as_str()).unwrap();
    assert_same(&lf, &back);
}

#[test]
fn round_trip_of_an_empty_lockfile() {
    let lf = Lockfile::with_params("1.9.4", "forge").unwrap();
    let doc = codec::encode_lockfile(&lf);
    let back = codec::parse_lockfile(doc.as_str()).unwrap();
    assert_same(&lf, &back);
}

#[test]
fn newline_in_a_field_is_not_encodable() {
    let mut lf = Lockfile::with_params("1.20.1", "paper").unwrap();
    lf.add(Info {
        name: "bad\nname".to_string(),
        id: "x".to_string(),
        version: "1".to_string(),
        source: "modrinth".to_string(),
        download_url: "https://cdn.example/x".to_string(),
        dependencies: None,
        checksum: None,
    });
    assert!(!codec::encodable(&lf));
}

#[test]
fn malformed_documents_do_not_parse() {
    assert!(codec::parse_lockfile("").is_none());
    assert!(codec::parse_lockfile("paper\n1.20.1\nlatest\nF\n").is_none());
    assert!(codec::parse_lockfile("paper\n1.20.1\nlatest\nX\nE\n").is_none());
    assert!(codec::parse_lockfile("paper\n1.20.1\nlatest\nF\nQ\n").is_none());
    assert!(codec::parse_lockfile("paper\n1.20.1\nlatest\nF\nE\ntrailing\n").is_none());
}

#[test]
fn minimal_document_parses() {
    let lf = codec::parse_lockfile("paper\n1.20.1\nlatest\nF\nE\n").unwrap();
    assert_eq!(lf.loader.name, "paper");
    assert_eq!(lf.loader.minecraft_version, "1.20.1");
    assert!(!lf.loader.snapshot);
    assert!(lf.mods.is_empty());
}
