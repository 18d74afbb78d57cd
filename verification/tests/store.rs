use pkgaudit::package::Package;
use pkgaudit::packagedb::{PackageDb, Resolution};
use pkgaudit::packagefile::PackageFile;

fn entry(path: &str) -> PackageFile {
    PackageFile::new(path.as_bytes().to_vec(), Some(0), None, None, None, None)
}

fn one_package() -> Vec<Package> {
    vec![Package::new(
        b"tool-1.0".to_vec(),
        b"tool".to_vec(),
        b"1.0".to_vec(),
        None,
    )]
}

fn paths(db: &PackageDb) -> Vec<String> {
    db.files()
        .iter()
        .map(|f| String::from_utf8(f.path().clone()).unwrap())
        .collect()
}

fn ancestors(path: &[u8]) -> Vec<Vec<u8>> {
    let mut found = Vec::new();
    if path.len() > 1 && path[0] == b'/' {
        found.push(b"/".to_vec());
    }
    for k in 1..path.len() {
        if path[k] == b'/' && path[k - 1] != b'/' {
            found.push(path[..k].to_vec());
        }
    }
    found
}

#[test]
fn store_adds_missing_directories() {
    let files = vec![entry("/usr/bin/tool"), entry("/etc/foo.conf")];
    let db = PackageDb::new(one_package(), files, Vec::new());
    assert_eq!(
        paths(&db),
        vec!["/", "/etc", "/etc/foo.conf", "/usr", "/usr/bin", "/usr/bin/tool"]
    );
    assert!(db.find_canonical(b"/usr/bin"));
    assert!(db.find_canonical(b"/"));
    assert!(!db.find_canonical(b"/opt"));
    assert!(!db.find_canonical(b"/usr/"));
    assert!(!db.find_canonical(b""));
}

#[test]
fn synthesized_directories_carry_nothing() {
    let files = vec![PackageFile::new(
        b"/usr/bin/tool".to_vec(),
        Some(0),
        Some(10),
        Some(0o100755),
        Some(vec![0u8; 16]),
        Some(1_700_000_000),
    )];
    let db = PackageDb::new(one_package(), files, Vec::new());
    let files = db.files();
    assert_eq!(files.len(), 4);
    for file in &files[..3] {
        assert_eq!(*file.package(), None);
        assert_eq!(*file.size(), None);
        assert_eq!(*file.mode(), None);
        assert_eq!(*file.chksum(), None);
        assert_eq!(*file.time(), None);
    }
    let tool = &files[3];
    assert_eq!(tool.path(), &b"/usr/bin/tool".to_vec());
    assert_eq!(*tool.package(), Some(0));
    assert_eq!(*tool.size(), Some(10));
    assert_eq!(*tool.mode(), Some(0o100755));
    assert_eq!(*tool.chksum(), Some(vec![0u8; 16]));
    assert_eq!(*tool.time(), Some(1_700_000_000));
}

#[test]
fn every_directory_above_a_tracked_path_is_tracked() {
    let input = [
        "/usr/share/doc/tool/README",
        "/usr/bin/tool",
        "/etc/tool/conf.d/10-main.conf",
        "/etc/tool-extra/x",
        "/etc/tool",
        "/var/lib/tool/state/a/b/c",
        "/opt/tool",
        "relative/dir/file",
    ];
    let files = input.iter().map(|p| entry(p)).collect();
    let db = PackageDb::new(one_package(), files, Vec::new());
    let stored: Vec<Vec<u8>> = db.files().iter().map(|f| f.path().clone()).collect();
    for path in &stored {
        for dir in ancestors(path) {
            assert!(stored.contains(&dir), "{:?} lacks {:?}", path, dir);
            assert!(db.find_canonical(&dir));
        }
    }
    for p in input {
        assert!(stored.contains(&p.as_bytes().to_vec()));
    }
}

#[test]
fn store_is_in_byte_order() {
    // '.' and '-' sort before '/', so "/a.b" and "/a-b" stand between "/a" and "/a/x"
    let files = vec![entry("/a/x"), entry("/a.b"), entry("/a"), entry("/a-b")];
    let db = PackageDb::new(one_package(), files, Vec::new());
    let stored = paths(&db);
    let mut sorted = stored.clone();
    sorted.sort_by(|a, b| a.as_bytes().cmp(b.as_bytes()));
    assert_eq!(stored, sorted);
    assert_eq!(stored, vec!["/", "/a", "/a-b", "/a.b", "/a/x"]);
}

#[test]
fn an_empty_store_is_empty() {
    let db = PackageDb::new(Vec::new(), Vec::new(), Vec::new());
    assert!(db.files().is_empty());
    assert!(db.packages().is_empty());
    assert!(!db.find_canonical(b"/"));
}

#[test]
fn the_root_stands_above_what_begins_with_a_slash() {
    let db = PackageDb::new(one_package(), vec![entry("/a")], Vec::new());
    assert_eq!(paths(&db), vec!["/", "/a"]);
    assert_eq!(*db.files()[0].package(), None);
    // a root that is listed is not added again
    let db = PackageDb::new(one_package(), vec![entry("/"), entry("/a/b")], Vec::new());
    assert_eq!(paths(&db), vec!["/", "/a", "/a/b"]);
    assert_eq!(*db.files()[0].package(), Some(0));
    // the root alone has nothing above it, and so has a path without a slash
    let db = PackageDb::new(one_package(), vec![entry("/")], Vec::new());
    assert_eq!(paths(&db), vec!["/"]);
    let db = PackageDb::new(one_package(), vec![entry("a")], Vec::new());
    assert_eq!(paths(&db), vec!["a"]);
    let db = PackageDb::new(one_package(), vec![entry("a/b"), entry("//c")], Vec::new());
    assert_eq!(paths(&db), vec!["/", "//c", "a", "a/b"]);
}

#[test]
fn canonical_paths_replace_recorded_ones() {
    let files = vec![entry("/bin/sh"), entry("/usr/bin/dash")];
    let mut db = PackageDb::new(one_package(), files, Vec::new());
    assert_eq!(paths(&db), vec!["/", "/bin", "/bin/sh", "/usr", "/usr/bin", "/usr/bin/dash"]);
    assert!(db.find_canonical(b"/bin/sh"));
    let resolved = vec![
        Resolution::Canonical(b"/".to_vec()),
        Resolution::Canonical(b"/usr/bin".to_vec()),
        Resolution::Canonical(b"/usr/bin/dash".to_vec()),
        Resolution::Unresolved,
    ];
    db.set_canonical(&resolved);
    // "/bin" and "/bin/sh" are now found under what they lead to
    assert!(!db.find_canonical(b"/bin"));
    assert!(!db.find_canonical(b"/bin/sh"));
    assert!(db.find_canonical(b"/usr"));
    assert!(db.find_canonical(b"/usr/bin"));
    assert!(db.find_canonical(b"/usr/bin/dash"));
    assert!(db.find_canonical(b"/"));
    // the files themselves are as they were
    assert_eq!(paths(&db), vec!["/", "/bin", "/bin/sh", "/usr", "/usr/bin", "/usr/bin/dash"]);
}

#[test]
fn owners_are_named_in_reports() {
    let packages = vec![
        Package::new("a".into(), "tool".into(), "1.0".into(), None),
        Package::new("b".into(), "lib".into(), "2.1-3".into(), Some("x86_64".into())),
    ];
    let db = PackageDb::new(packages, Vec::new(), vec!["^/var/lib/rpm($|/.*)".to_string()]);
    assert_eq!(db.package_to_string(None, false), "None");
    assert_eq!(db.package_to_string(None, true), "None");
    assert_eq!(db.package_to_string(Some(0), false), "tool-1.0");
    assert_eq!(db.package_to_string(Some(0), true), "tool");
    assert_eq!(db.package_to_string(Some(1), false), "lib-2.1-3:x86_64");
    assert_eq!(db.package_to_string(Some(1), true), "lib:x86_64");
    assert_eq!(db.ignores(), &vec!["^/var/lib/rpm($|/.*)".to_string()]);
    assert_eq!(db.packages().len(), 2);
}

#[test]
fn package_names() {
    let bare = Package::new("tool-1.0".into(), "tool".into(), "1.0".into(), None);
    assert_eq!(bare.fullname(), &b"tool-1.0".to_vec());
    assert_eq!(bare.fullnamestr(), "tool-1.0");
    assert_eq!(bare.namestr(), "tool");
    assert_eq!(bare.versionstr(), "1.0");
    assert_eq!(bare.archstr(), "");
    assert_eq!(bare.name_arch(), "tool");
    assert_eq!(bare.name_ver_arch(), "tool-1.0");
    let full = Package::new("lib-2:amd64".into(), "lib".into(), "2".into(), Some("amd64".into()));
    assert_eq!(full.archstr(), "amd64");
    assert_eq!(full.name_arch(), "lib:amd64");
    assert_eq!(full.name_ver_arch(), "lib-2:amd64");
    // names are bytes, and are made into text where they are shown
    let odd = Package::new(
        b"caf\xe9-1".to_vec(),
        b"caf\xe9".to_vec(),
        b"1\xff".to_vec(),
        Some(b"\xfe".to_vec()),
    );
    assert_eq!(odd.fullname(), &b"caf\xe9-1".to_vec());
    assert_eq!(odd.fullnamestr(), "caf\u{fffd}-1");
    assert_eq!(odd.namestr(), "caf\u{fffd}");
    assert_eq!(odd.versionstr(), "1\u{fffd}");
    assert_eq!(odd.archstr(), "\u{fffd}");
    assert_eq!(odd.name_arch(), "caf\u{fffd}:\u{fffd}");
    assert_eq!(odd.name_ver_arch(), "caf\u{fffd}-1\u{fffd}:\u{fffd}");
}

#[test]
fn a_directory_that_is_listed_gets_no_second_entry() {
    // "/a" is listed, but "/a-b" stands between it and what lies under it
    let files = vec![entry("/a/b"), entry("/a-b"), entry("/a")];
    let db = PackageDb::new(one_package(), files, Vec::new());
    assert_eq!(paths(&db), vec!["/", "/a", "/a-b", "/a/b"]);
    assert_eq!(*db.files()[0].package(), None);
    for file in &db.files()[1..] {
        assert_eq!(*file.package(), Some(0));
    }
    let files = vec![
        entry("/usr/share/doc/libfoo/README"),
        entry("/usr/share/doc/libfoo-dev/copyright"),
        entry("/usr/share/doc/libfoo.so/x"),
        entry("/usr/share/doc/libfoo"),
        entry("/usr/share/doc/libfoo/changelog"),
    ];
    let db = PackageDb::new(one_package(), files, Vec::new());
    assert_eq!(
        paths(&db),
        vec![
            "/",
            "/usr",
            "/usr/share",
            "/usr/share/doc",
            "/usr/share/doc/libfoo",
            "/usr/share/doc/libfoo-dev",
            "/usr/share/doc/libfoo-dev/copyright",
            "/usr/share/doc/libfoo.so",
            "/usr/share/doc/libfoo.so/x",
            "/usr/share/doc/libfoo/README",
            "/usr/share/doc/libfoo/changelog",
        ]
    );
}

#[test]
fn each_missing_directory_is_added_once_and_each_file_is_kept() {
    // files under "/m" stand apart in byte order, and "/d" is listed twice
    // without owner
    let files = vec![
        entry("/m/x"),
        PackageFile::new(b"/d".to_vec(), None, None, None, None, None),
        entry("/m-n/y"),
        entry("/m/z"),
        PackageFile::new(b"/d".to_vec(), None, None, None, None, None),
        entry("/m.o"),
        entry("/m/x"),
    ];
    let db = PackageDb::new(one_package(), files, Vec::new());
    assert_eq!(
        paths(&db),
        vec!["/", "/d", "/d", "/m", "/m-n", "/m-n/y", "/m.o", "/m/x", "/m/x", "/m/z"]
    );
    let owners: Vec<Option<usize>> = db.files().iter().map(|f| *f.package()).collect();
    assert_eq!(
        owners,
        vec![None, None, None, None, None, Some(0), Some(0), Some(0), Some(0), Some(0)]
    );
}

#[test]
fn an_entry_without_owner() {
    let dir = PackageFile::synthesized(b"/srv".to_vec());
    assert_eq!(dir.path(), &b"/srv".to_vec());
    assert_eq!(*dir.package(), None);
    assert_eq!(*dir.size(), None);
    assert_eq!(*dir.mode(), None);
    assert_eq!(*dir.chksum(), None);
    assert_eq!(*dir.time(), None);
}
