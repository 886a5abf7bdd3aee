use hoplite::hal::HalValue;
use hoplite::package_catalog::catalog_from_document;

fn kw(name: &str) -> HalValue {
    HalValue::Keyword(name.into())
}

fn string(text: &str) -> HalValue {
    HalValue::String(text.into())
}

fn package_descriptor(namespace: &str, digest: char, manifest: char) -> HalValue {
    HalValue::Mapping(vec![
        (kw("version"), string("1.2.3")),
        (kw("tap"), string("hara")),
        (kw("oci/repository"), string("ghcr.io/hara-packages/hara-lang.demo")),
        (kw("oci/manifest"), string(&format!("sha256:{}", manifest.to_string().repeat(64)))),
        (kw("archive-sha256"), string(&format!("sha256:{}", digest.to_string().repeat(64)))),
        (kw("namespaces"), HalValue::Vector(vec![HalValue::Symbol(namespace.into())])),
    ])
}

fn lock(packages: Vec<(&str, HalValue)>) -> HalValue {
    HalValue::Mapping(vec![
        (kw("lock/format"), string("0.0.1")),
        (
            kw("packages"),
            HalValue::Mapping(
                packages
                    .into_iter()
                    .map(|(coordinate, descriptor)| (string(coordinate), descriptor))
                    .collect(),
            ),
        ),
    ])
}

#[test]
fn reads_exact_lock_catalog() {
    let document = lock(vec![("hara:demo/core", package_descriptor("demo.core", 'a', 'b'))]);
    let catalog = catalog_from_document(&document).unwrap();
    assert_eq!(catalog[0].coordinate, "hara:demo/core");
    assert_eq!(catalog[0].namespaces, vec!["demo.core"]);
    assert_eq!(catalog[0].oci_repository, "ghcr.io/hara-packages/hara-lang.demo");
    assert_eq!(catalog[0].oci_manifest, format!("sha256:{}", "b".repeat(64)));
}

#[test]
fn rejects_namespace_conflicts() {
    let document = lock(vec![
        ("hara:demo/first", package_descriptor("demo.core", 'a', 'b')),
        ("hara:demo/second", package_descriptor("demo.core", 'c', 'd')),
    ]);
    assert!(catalog_from_document(&document).unwrap_err().contains("package/namespace-conflict"));
}

#[test]
fn catalogs_are_ordered_and_conflicts_name_both_packages() {
    let document = lock(vec![
        ("hara:demo/zeta", package_descriptor("demo.zeta", 'a', 'b')),
        ("hara:demo/alpha", package_descriptor("demo.alpha", 'c', 'd')),
    ]);
    let catalog = catalog_from_document(&document).unwrap();
    let coordinates: Vec<&str> = catalog.iter().map(|p| p.coordinate.as_str()).collect();
    assert_eq!(coordinates, vec!["hara:demo/alpha", "hara:demo/zeta"]);
    let conflict = lock(vec![
        ("hara:demo/second", package_descriptor("demo.core", 'a', 'b')),
        ("hara:demo/first", package_descriptor("demo.core", 'c', 'd')),
    ]);
    assert_eq!(
        catalog_from_document(&conflict).unwrap_err(),
        "package/namespace-conflict: demo.core is exported by hara:demo/first and hara:demo/second"
    );
    let empty = HalValue::Mapping(vec![(kw("lock/format"), string("0.0.1"))]);
    assert!(catalog_from_document(&empty).unwrap().is_empty());
}

#[test]
fn lock_documents_are_checked_field_by_field() {
    assert_eq!(
        catalog_from_document(&HalValue::Nil).unwrap_err(),
        "project.lock.edn must be an EDN map"
    );
    assert_eq!(
        catalog_from_document(&HalValue::Mapping(vec![(kw("lock/format"), string("0.0.2"))]))
            .unwrap_err(),
        "project.lock.edn requires :lock/format \"0.0.1\""
    );
    let bad_version = HalValue::Mapping(vec![
        (kw("version"), string("1.2")),
        (kw("tap"), string("hara")),
    ]);
    assert_eq!(
        catalog_from_document(&lock(vec![("hara:demo/core", bad_version)])).unwrap_err(),
        "locked package hara:demo/core has invalid version: unexpected end of input while parsing minor version number"
    );
    let missing = HalValue::Mapping(vec![(kw("version"), string("1.2.3"))]);
    assert_eq!(
        catalog_from_document(&lock(vec![("hara:demo/core", missing)])).unwrap_err(),
        "locked package is missing :archive-sha256"
    );
    let with = |archive: &str, repository: &str, namespaces: Vec<HalValue>| {
        HalValue::Mapping(vec![
            (kw("version"), string("1.2.3")),
            (kw("tap"), string("hara")),
            (kw("oci/repository"), string(repository)),
            (kw("oci/manifest"), string(&"b".repeat(64))),
            (kw("archive-sha256"), string(archive)),
            (kw("namespaces"), HalValue::Vector(namespaces)),
        ])
    };
    let good_repository = "ghcr.io/hara-packages/demo";
    let good_archive = "a".repeat(64);
    let core = || vec![HalValue::Symbol("demo.core".into())];
    assert_eq!(
        catalog_from_document(&lock(vec![("hara:demo/core", with(&"A".repeat(64), good_repository, core()))]))
            .unwrap_err(),
        "locked package :archive-sha256 must be SHA-256"
    );
    assert_eq!(
        catalog_from_document(&lock(vec![("hara:demo/core", with(&good_archive, "docker.io/demo", core()))]))
            .unwrap_err(),
        "locked package :oci/repository must be under ghcr.io/hara-packages"
    );
    assert_eq!(
        catalog_from_document(&lock(vec![(
            "hara:demo/core",
            with(&good_archive, "ghcr.io/hara-packages/-demo", core()),
        )]))
        .unwrap_err(),
        "locked package :oci/repository is invalid"
    );
    assert_eq!(
        catalog_from_document(&lock(vec![("hara:demo/core", with(&good_archive, good_repository, vec![]))]))
            .unwrap_err(),
        "locked package hara:demo/core exports no namespaces"
    );
    let namespaces = vec![string("demo.b"), HalValue::Symbol("demo.a".into()), string("demo.b")];
    let catalog =
        catalog_from_document(&lock(vec![("hara:demo/core", with(&good_archive, good_repository, namespaces))]))
            .unwrap();
    assert_eq!(catalog[0].namespaces, vec!["demo.a", "demo.b"]);
    assert_eq!(catalog[0].archive_sha256, "a".repeat(64));
}
