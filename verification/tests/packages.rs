use std::cell::Cell;
use typst_lua::package::{
    decompress_archive, package_subdir, package_url, retry, retry_next, version_to_text, PackageFailure, PackageSpec,
    PackageVersion,
};

fn cetz() -> PackageSpec {
    PackageSpec {
        namespace: "preview".to_string(),
        name: "cetz".to_string(),
        version: PackageVersion { major: 0, minor: 2, patch: 10 },
    }
}

#[test]
fn version_renders_with_dots() {
    assert_eq!(version_to_text(&PackageVersion { major: 1, minor: 20, patch: 3 }), "1.20.3");
}

#[test]
fn package_subdir_names_namespace_name_and_version() {
    assert_eq!(package_subdir(&cetz()), "preview/cetz/0.2.10");
}

#[test]
fn package_url_points_at_the_archive() {
    assert_eq!(package_url(&cetz()), "https://packages.typst.org/preview/cetz-0.2.10.tar.gz");
}

#[test]
fn archive_decompresses() {
    let gz: Vec<u8> = vec![
        31, 139, 8, 0, 0, 0, 0, 0, 2, 255, 203, 72, 205, 201, 201, 87, 40, 169, 44, 40, 46, 1, 0, 130, 169, 241,
        236, 11, 0, 0, 0,
    ];
    assert_eq!(decompress_archive(&gz), Ok(b"hello typst".to_vec()));
}

#[test]
fn garbage_archive_is_malformed() {
    match decompress_archive(b"not a gzip stream") {
        Err(PackageFailure::MalformedArchive(message)) => assert!(!message.is_empty()),
        other => panic!("expected a malformed archive, got {other:?}"),
    }
}

#[test]
fn retry_returns_the_first_success() {
    let calls = Cell::new(0);
    let res: Result<u32, &str> = retry(|| {
        calls.set(calls.get() + 1);
        Ok(7)
    });
    assert_eq!(res, Ok(7));
    assert_eq!(calls.get(), 1);
}

#[test]
fn retry_tries_once_more_after_a_failure() {
    let calls = Cell::new(0);
    let res: Result<u32, &str> = retry(|| {
        calls.set(calls.get() + 1);
        if calls.get() == 1 { Err("first") } else { Ok(calls.get()) }
    });
    assert_eq!(res, Ok(2));
    assert_eq!(calls.get(), 2);
}

#[test]
fn retry_gives_up_after_two_failures() {
    let calls = Cell::new(0);
    let res: Result<u32, u32> = retry(|| {
        calls.set(calls.get() + 1);
        Err(calls.get())
    });
    assert_eq!(res, Err(2));
    assert_eq!(calls.get(), 2);
}

#[test]
fn retry_policy_tries_again_only_after_a_failed_first_attempt() {
    assert!(retry_next(1, true));
    assert!(!retry_next(1, false));
    assert!(!retry_next(2, true));
    assert!(!retry_next(2, false));
}
