use pkgaudit::check::{check, CheckArgs};
use pkgaudit::package::Package;
use pkgaudit::packagedb::{PackageDb, Resolution};
use pkgaudit::packagefile::PackageFile;
use pkgaudit::report::{Report, ReportItem};
use pkgaudit::verify::{verify, verify_content, LiveMeta, StatOutcome, VerifyStep};
use pkgaudit::walk::{
    asks_filesystem, check_new_dir, check_new_ent, should_recurse, EntryProbe, Walker,
};

fn args() -> CheckArgs {
    CheckArgs {
        changed: true,
        missing: true,
        new: true,
        checksum: false,
        ignores: Vec::new(),
        debug: 0,
    }
}

fn index_of(db: &PackageDb, path: &[u8]) -> usize {
    db.files().iter().position(|f| f.path().as_slice() == path).unwrap()
}

fn lines(report: &Report, debug: u8) -> (Vec<String>, Vec<String>) {
    let printed = report.print(debug);
    (printed.lines, printed.filtered)
}

fn package(name: &str, version: &str) -> Package {
    Package::new(
        format!("{}-{}", name, version).into_bytes(),
        name.as_bytes().to_vec(),
        version.as_bytes().to_vec(),
        None,
    )
}

#[test]
fn changed_mode_is_reported_once() {
    let file = PackageFile::new(
        b"/etc/foo.conf".to_vec(),
        Some(0),
        Some(10),
        Some(0o644),
        None,
        None,
    );
    let db = PackageDb::new(vec![package("foo", "2.0")], vec![file], Vec::new());
    let (mut report, rejected) = check(&db, &args());
    assert!(rejected.is_empty());
    let live = LiveMeta { mode: 0o600, size: 12, mtime: 0, is_file: true };
    let idx = index_of(&db, b"/etc/foo.conf");
    let step = verify(&db, &args(), &mut report, idx, &StatOutcome::Found(live));
    assert_eq!(step, VerifyStep::Done);
    assert_eq!(report.items().len(), 1);
    match &report.items()[0] {
        ReportItem::Changed(changed) => {
            assert_eq!(changed.path(), &b"/etc/foo.conf".to_vec());
            assert_eq!(changed.package(), "foo-2.0");
            assert_eq!(changed.description(), "mode from ?rw-r--r-- to ?rw-------");
        }
        _ => panic!("a change was expected"),
    }
    assert_eq!(
        lines(&report, 0).0,
        vec!["CHANGED /etc/foo.conf (package foo-2.0, mode from ?rw-r--r-- to ?rw-------)"]
    );
}

#[test]
fn changed_mode_of_a_regular_file() {
    let file = PackageFile::new(
        b"/etc/foo.conf".to_vec(),
        Some(0),
        Some(10),
        Some(0o100644),
        None,
        None,
    );
    let db = PackageDb::new(vec![package("foo", "2.0")], vec![file], Vec::new());
    let (mut report, _) = check(&db, &args());
    let live = LiveMeta { mode: 0o100600, size: 10, mtime: 0, is_file: true };
    let idx = index_of(&db, b"/etc/foo.conf");
    verify(&db, &args(), &mut report, idx, &StatOutcome::Found(live));
    assert_eq!(
        lines(&report, 0).0,
        vec!["CHANGED /etc/foo.conf (package foo-2.0, mode from -rw-r--r-- to -rw-------)"]
    );
}

#[test]
fn missing_file_names_its_package() {
    let file = PackageFile::new(b"/usr/bin/tool".to_vec(), Some(0), None, None, None, None);
    let db = PackageDb::new(vec![package("tool", "1.0")], vec![file], Vec::new());
    let (mut report, _) = check(&db, &args());
    let idx = index_of(&db, b"/usr/bin/tool");
    let step = verify(&db, &args(), &mut report, idx, &StatOutcome::NotFound);
    assert_eq!(step, VerifyStep::Done);
    assert_eq!(report.items().len(), 1);
    match &report.items()[0] {
        ReportItem::Missing(missing) => {
            assert_eq!(missing.path(), &b"/usr/bin/tool".to_vec());
            assert_eq!(missing.package(), "tool-1.0");
        }
        _ => panic!("a missing file was expected"),
    }
    assert_eq!(lines(&report, 0).0, vec!["MISSING /usr/bin/tool (package tool-1.0)"]);
}

#[test]
fn new_file_under_a_known_directory() {
    let file = PackageFile::new(b"/opt/app/run".to_vec(), Some(0), None, None, None, None);
    let db = PackageDb::new(vec![package("app", "3")], vec![file], Vec::new());
    let (mut report, _) = check(&db, &args());
    // the walk reaches "/opt": it is known, a directory on an ordinary filesystem
    let opt = EntryProbe {
        canonical: Resolution::Canonical(b"/opt".to_vec()),
        is_dir: true,
        is_symlink: false,
        fs_type: Some(0xef53),
        mode: Some(0o40755),
    };
    assert!(check_new_ent(b"/opt".to_vec(), &opt, &db, &mut report));
    assert!(report.items().is_empty());
    let children = check_new_dir(vec![b"/opt/extra.sh".to_vec(), b"/opt/app".to_vec()]);
    assert_eq!(children, vec![b"/opt/app".to_vec(), b"/opt/extra.sh".to_vec()]);
    let app = EntryProbe {
        canonical: Resolution::Canonical(b"/opt/app".to_vec()),
        is_dir: true,
        is_symlink: false,
        fs_type: Some(0xef53),
        mode: Some(0o40755),
    };
    assert!(check_new_ent(b"/opt/app".to_vec(), &app, &db, &mut report));
    let extra = EntryProbe {
        canonical: Resolution::Canonical(b"/opt/extra.sh".to_vec()),
        is_dir: false,
        is_symlink: false,
        fs_type: None,
        mode: Some(0o100755),
    };
    assert!(!check_new_ent(b"/opt/extra.sh".to_vec(), &extra, &db, &mut report));
    assert_eq!(report.items().len(), 1);
    match &report.items()[0] {
        ReportItem::New(new) => {
            assert_eq!(new.path(), &b"/opt/extra.sh".to_vec());
            assert_eq!(new.mode(), 0o100755);
        }
        _ => panic!("a new file was expected"),
    }
    assert_eq!(lines(&report, 0).0, vec!["NEW /opt/extra.sh (-rwxr-xr-x)"]);
}

#[test]
fn ignored_finding_is_kept_but_not_printed() {
    let file = PackageFile::new(b"/var/log/old.log".to_vec(), Some(0), None, None, None, None);
    let db = PackageDb::new(vec![package("logger", "1")], vec![file], Vec::new());
    let (mut report, _) = check(&db, &args());
    let idx = index_of(&db, b"/var/log/old.log");
    verify(&db, &args(), &mut report, idx, &StatOutcome::NotFound);
    report.sort();
    // the finding is in the collection
    assert_eq!(report.items().len(), 1);
    assert_eq!(report.items()[0].path(), &b"/var/log/old.log".to_vec());
    // it is not printed, and without debugging nothing tells of it
    assert_eq!(lines(&report, 0), (Vec::new(), Vec::new()));
    assert_eq!(lines(&report, 1), (Vec::new(), Vec::new()));
    // with more debugging a notice tells of it
    assert_eq!(
        lines(&report, 2),
        (Vec::new(), vec!["/var/log/old.log filtered out by regex".to_string()])
    );
    // printing removed nothing
    assert_eq!(report.items().len(), 1);
}

#[test]
fn earlier_modification_time_is_no_change() {
    let file = PackageFile::new(
        b"/usr/bin/tool".to_vec(),
        Some(0),
        Some(4),
        Some(0o100755),
        None,
        Some(2_000_000_000),
    );
    let db = PackageDb::new(vec![package("tool", "1.0")], vec![file], Vec::new());
    let idx = index_of(&db, b"/usr/bin/tool");
    let (mut report, _) = check(&db, &args());
    let earlier = LiveMeta { mode: 0o100755, size: 4, mtime: 1_000_000_000, is_file: true };
    verify(&db, &args(), &mut report, idx, &StatOutcome::Found(earlier));
    let same = LiveMeta { mode: 0o100755, size: 4, mtime: 2_000_000_000, is_file: true };
    verify(&db, &args(), &mut report, idx, &StatOutcome::Found(same));
    assert!(report.items().is_empty());
    // strictly later is a change
    let later = LiveMeta { mode: 0o100755, size: 4, mtime: 2_000_000_001, is_file: true };
    verify(&db, &args(), &mut report, idx, &StatOutcome::Found(later));
    assert_eq!(
        lines(&report, 0).0,
        vec!["CHANGED /usr/bin/tool (package tool-1.0, Modification time later)"]
    );
    // but only for a regular file
    let (mut report, _) = check(&db, &args());
    let dir = LiveMeta { mode: 0o100755, size: 4, mtime: 2_000_000_001, is_file: false };
    verify(&db, &args(), &mut report, idx, &StatOutcome::Found(dir));
    assert!(report.items().is_empty());
}

#[test]
fn a_checksum_is_verified_in_a_second_step() {
    let content = b"hello world";
    let md5 = vec![
        0x5e, 0xb6, 0x3b, 0xbb, 0xe0, 0x1e, 0xee, 0xd0, 0x93, 0xcb, 0x22, 0xbb, 0x8f, 0x5a, 0xcd,
        0xc3,
    ];
    let file = PackageFile::new(
        b"/etc/motd".to_vec(),
        Some(0),
        Some(11),
        Some(0o100644),
        Some(md5),
        Some(100),
    );
    let db = PackageDb::new(vec![package("base", "1")], vec![file], Vec::new());
    let idx = index_of(&db, b"/etc/motd");
    let mut with_checksum = args();
    with_checksum.checksum = true;
    let live = LiveMeta { mode: 0o100644, size: 11, mtime: 200, is_file: true };

    // without checksums the later modification time is reported at once
    let (mut report, _) = check(&db, &args());
    assert_eq!(verify(&db, &args(), &mut report, idx, &StatOutcome::Found(live)), VerifyStep::Done);
    assert_eq!(report.items().len(), 1);

    // with checksums the content is asked for, and nothing is reported yet
    let (mut report, _) = check(&db, &with_checksum);
    let step = verify(&db, &with_checksum, &mut report, idx, &StatOutcome::Found(live));
    assert_eq!(step, VerifyStep::NeedContent(pkgaudit::checksum::Algorithm::Md5));
    assert!(report.items().is_empty());

    // matching content: the modification time is what remains
    let outcome = verify_content(&db, &mut report, idx, &live, Some(content));
    assert_eq!(outcome, pkgaudit::verify::DigestOutcome::Match);
    assert_eq!(
        lines(&report, 0).0,
        vec!["CHANGED /etc/motd (package base-1, Modification time later)"]
    );

    // other content: the hash is reported, the modification time is not
    let (mut report, _) = check(&db, &with_checksum);
    let outcome = verify_content(&db, &mut report, idx, &live, Some(b"hello world!"));
    assert_eq!(outcome, pkgaudit::verify::DigestOutcome::Mismatch);
    assert_eq!(lines(&report, 0).0, vec!["CHANGED /etc/motd (package base-1, Hash changed)"]);

    // content that could not be had: the modification time is what remains
    let (mut report, _) = check(&db, &with_checksum);
    let outcome = verify_content(&db, &mut report, idx, &live, None);
    assert_eq!(outcome, pkgaudit::verify::DigestOutcome::Failed);
    assert_eq!(
        lines(&report, 0).0,
        vec!["CHANGED /etc/motd (package base-1, Modification time later)"]
    );
}

#[test]
fn a_checksum_of_unknown_length_is_said_and_passed_over() {
    let file = PackageFile::new(
        b"/etc/motd".to_vec(),
        Some(0),
        None,
        None,
        Some(vec![1, 2, 3]),
        Some(100),
    );
    let db = PackageDb::new(vec![package("base", "1")], vec![file], Vec::new());
    let idx = index_of(&db, b"/etc/motd");
    let mut with_checksum = args();
    with_checksum.checksum = true;
    let (mut report, _) = check(&db, &with_checksum);
    let live = LiveMeta { mode: 0o100644, size: 11, mtime: 200, is_file: true };
    let step = verify(&db, &with_checksum, &mut report, idx, &StatOutcome::Found(live));
    assert_eq!(
        step,
        VerifyStep::DigestFailed(pkgaudit::checksum::DigestError::UnknownLength(3))
    );
    assert_eq!(
        lines(&report, 0).0,
        vec!["CHANGED /etc/motd (package base-1, Modification time later)"]
    );
}

#[test]
fn first_mismatch_wins() {
    let file = PackageFile::new(
        b"/bin/x".to_vec(),
        Some(0),
        Some(10),
        Some(0o100755),
        Some(vec![0u8; 32]),
        Some(5),
    );
    let db = PackageDb::new(vec![package("x", "1")], vec![file], Vec::new());
    let idx = index_of(&db, b"/bin/x");
    let mut all = args();
    all.checksum = true;
    // everything differs: only the mode is reported
    let (mut report, _) = check(&db, &all);
    let live = LiveMeta { mode: 0o100700, size: 99, mtime: 50, is_file: true };
    assert_eq!(verify(&db, &all, &mut report, idx, &StatOutcome::Found(live)), VerifyStep::Done);
    assert_eq!(
        lines(&report, 0).0,
        vec!["CHANGED /bin/x (package x-1, mode from -rwxr-xr-x to -rwx------)"]
    );
    // the mode agrees: only the size is reported
    let (mut report, _) = check(&db, &all);
    let live = LiveMeta { mode: 0o100755, size: 99, mtime: 50, is_file: true };
    assert_eq!(verify(&db, &all, &mut report, idx, &StatOutcome::Found(live)), VerifyStep::Done);
    assert_eq!(lines(&report, 0).0, vec!["CHANGED /bin/x (package x-1, size from 10 to 99)"]);
}

#[test]
fn what_is_not_asked_for_is_not_reported() {
    let file = PackageFile::new(b"/bin/x".to_vec(), Some(0), Some(10), None, None, None);
    let db = PackageDb::new(vec![package("x", "1")], vec![file], Vec::new());
    let idx = index_of(&db, b"/bin/x");
    let mut quiet = args();
    quiet.changed = false;
    quiet.missing = false;
    assert!(!quiet.verifies());
    assert!(args().verifies());
    let (mut report, _) = check(&db, &quiet);
    let live = LiveMeta { mode: 0, size: 11, mtime: 0, is_file: true };
    assert_eq!(verify(&db, &quiet, &mut report, idx, &StatOutcome::Found(live)), VerifyStep::Done);
    assert_eq!(verify(&db, &quiet, &mut report, idx, &StatOutcome::NotFound), VerifyStep::Done);
    assert_eq!(verify(&db, &quiet, &mut report, idx, &StatOutcome::Failed), VerifyStep::StatFailed);
    assert!(report.items().is_empty());
    // a look that failed reports nothing either way
    let (mut report, _) = check(&db, &args());
    assert_eq!(verify(&db, &args(), &mut report, idx, &StatOutcome::Failed), VerifyStep::StatFailed);
    assert!(report.items().is_empty());
}

#[test]
fn a_synthesized_directory_can_be_missing_but_never_changed() {
    let file = PackageFile::new(b"/opt/app/run".to_vec(), Some(0), None, None, None, None);
    let db = PackageDb::new(vec![package("app", "3")], vec![file], Vec::new());
    let idx = index_of(&db, b"/opt/app");
    let mut all = args();
    all.checksum = true;
    let (mut report, _) = check(&db, &all);
    let live = LiveMeta { mode: 0o40700, size: 4096, mtime: i64::MAX, is_file: false };
    assert_eq!(verify(&db, &all, &mut report, idx, &StatOutcome::Found(live)), VerifyStep::Done);
    let live = LiveMeta { mode: 0o100644, size: 0, mtime: i64::MAX, is_file: true };
    assert_eq!(verify(&db, &all, &mut report, idx, &StatOutcome::Found(live)), VerifyStep::Done);
    assert!(report.items().is_empty());
    assert_eq!(verify(&db, &all, &mut report, idx, &StatOutcome::NotFound), VerifyStep::Done);
    assert_eq!(lines(&report, 0).0, vec!["MISSING /opt/app (package None)"]);
}

#[test]
fn running_the_verifier_twice_gives_the_same_findings() {
    let files = vec![
        PackageFile::new(b"/a".to_vec(), Some(0), Some(1), Some(0o100644), None, Some(10)),
        PackageFile::new(b"/b".to_vec(), Some(0), Some(2), Some(0o100644), None, Some(10)),
        PackageFile::new(b"/c/d".to_vec(), Some(0), None, None, None, None),
    ];
    let db = PackageDb::new(vec![package("p", "1")], files, Vec::new());
    let looks = [
        StatOutcome::Found(LiveMeta { mode: 0o40755, size: 4096, mtime: 99, is_file: false }),
        StatOutcome::Found(LiveMeta { mode: 0o100600, size: 1, mtime: 10, is_file: true }),
        StatOutcome::Found(LiveMeta { mode: 0o100644, size: 3, mtime: 10, is_file: true }),
        StatOutcome::NotFound,
        StatOutcome::Failed,
    ];
    assert_eq!(db.files().len(), looks.len());
    let run = || {
        let (mut report, _) = check(&db, &args());
        for idx in 0..db.files().len() {
            verify(&db, &args(), &mut report, idx, &looks[idx]);
        }
        report.sort();
        report.print(0).lines
    };
    let first = run();
    let second = run();
    assert_eq!(first, second);
    assert_eq!(
        first,
        vec![
            "CHANGED /a (package p-1, mode from -rw-r--r-- to -rw-------)",
            "CHANGED /b (package p-1, size from 2 to 3)",
            "MISSING /c (package None)",
        ]
    );
}

#[test]
fn the_report_is_in_path_order_whatever_made_the_findings() {
    let files = vec![
        PackageFile::new(b"/m/b".to_vec(), Some(0), Some(1), None, None, None),
        PackageFile::new(b"/m/d".to_vec(), Some(0), None, None, None, None),
    ];
    let db = PackageDb::new(vec![package("p", "1")], files, Vec::new());
    let (mut report, _) = check(&db, &args());
    report.add_new(b"/m/e".to_vec(), 0o100644);
    report.add_new(b"/m/a".to_vec(), 0o40755);
    verify(&db, &args(), &mut report, index_of(&db, b"/m/d"), &StatOutcome::NotFound);
    let live = LiveMeta { mode: 0, size: 2, mtime: 0, is_file: true };
    verify(&db, &args(), &mut report, index_of(&db, b"/m/b"), &StatOutcome::Found(live));
    report.add_new(b"/m/c".to_vec(), 0o120777);
    report.add_new(b"/m.x".to_vec(), 0);
    report.sort();
    let paths: Vec<&[u8]> = report.items().iter().map(|i| i.path().as_slice()).collect();
    let expected: Vec<&[u8]> = vec![b"/m.x", b"/m/a", b"/m/b", b"/m/c", b"/m/d", b"/m/e"];
    assert_eq!(paths, expected);
    assert_eq!(
        report.print(0).lines,
        vec![
            "NEW /m.x (?---------)",
            "NEW /m/a (drwxr-xr-x)",
            "CHANGED /m/b (package p-1, size from 1 to 2)",
            "NEW /m/c (lrwxrwxrwx)",
            "MISSING /m/d (package p-1)",
            "NEW /m/e (-rw-r--r--)",
        ]
    );
}

#[test]
fn the_walk_visits_what_lies_in_a_directory_before_what_follows_it() {
    let mut walker = Walker::new();
    assert_eq!(walker.next(), None);
    walker.push_dir(vec![b"/usr".to_vec(), b"/etc".to_vec(), b"/opt".to_vec()]);
    assert_eq!(walker.next(), Some(b"/etc".to_vec()));
    // the walk goes into "/etc"
    walker.push_dir(vec![b"/etc/passwd".to_vec(), b"/etc/a.d".to_vec(), b"/etc/a".to_vec()]);
    assert_eq!(walker.next(), Some(b"/etc/a".to_vec()));
    assert_eq!(walker.next(), Some(b"/etc/a.d".to_vec()));
    // a directory without entries
    walker.push_dir(Vec::new());
    assert_eq!(walker.next(), Some(b"/etc/passwd".to_vec()));
    assert_eq!(walker.next(), Some(b"/opt".to_vec()));
    assert_eq!(walker.next(), Some(b"/usr".to_vec()));
    assert_eq!(walker.next(), None);
    assert_eq!(walker.next(), None);
}

#[test]
fn a_whole_walk_lists_every_new_entry_once() {
    // the tree on disk: a directory's entries, or nothing for what is no directory
    let tree: Vec<(&[u8], Vec<&[u8]>)> = vec![
        (b"/", vec![b"/proc", b"/opt", b"/etc", b"/lost+found"]),
        (b"/etc", vec![b"/etc/tool.conf", b"/etc/extra.conf"]),
        (b"/opt", vec![b"/opt/tool", b"/opt/link", b"/opt/other"]),
        (b"/opt/tool", vec![b"/opt/tool/run", b"/opt/tool/cache"]),
        (b"/opt/other", vec![b"/opt/other/deep"]),
        (b"/proc", vec![b"/proc/1"]),
        (b"/lost+found", vec![b"/lost+found/x"]),
    ];
    let children = |dir: &[u8]| -> Option<Vec<Vec<u8>>> {
        tree.iter()
            .find(|(d, _)| *d == dir)
            .map(|(_, c)| c.iter().map(|p| p.to_vec()).collect())
    };
    let files = vec![
        PackageFile::new(b"/etc/tool.conf".to_vec(), Some(0), None, None, None, None),
        PackageFile::new(b"/opt/tool/run".to_vec(), Some(0), None, None, None, None),
        PackageFile::new(b"/opt/link".to_vec(), Some(0), None, None, None, None),
        PackageFile::new(b"/proc".to_vec(), Some(0), None, None, None, None),
    ];
    let db = PackageDb::new(vec![package("tool", "1")], files, Vec::new());
    let (mut report, _) = check(&db, &args());
    let mut visited: Vec<Vec<u8>> = Vec::new();
    let mut walker = Walker::new();
    walker.push_dir(children(b"/").unwrap());
    while let Some(ent) = walker.next() {
        visited.push(ent.clone());
        let listing = children(&ent);
        let probe = EntryProbe {
            canonical: Resolution::Unresolved,
            is_dir: listing.is_some() || ent == b"/opt/link",
            is_symlink: ent == b"/opt/link",
            fs_type: Some(if ent == b"/proc" { 0x9fa0 } else { 0xef53 }),
            mode: Some(if listing.is_some() { 0o40755 } else { 0o100644 }),
        };
        if check_new_ent(ent, &probe, &db, &mut report) {
            walker.push_dir(listing.unwrap());
        }
    }
    // the walk goes into the directories that are new as well, but not into
    // the symbolic link and not into the process filesystem
    let expected: Vec<&[u8]> = vec![
        b"/etc",
        b"/etc/extra.conf",
        b"/etc/tool.conf",
        b"/lost+found",
        b"/lost+found/x",
        b"/opt",
        b"/opt/link",
        b"/opt/other",
        b"/opt/other/deep",
        b"/opt/tool",
        b"/opt/tool/cache",
        b"/opt/tool/run",
        b"/proc",
    ];
    assert_eq!(visited, expected);
    report.sort();
    assert_eq!(
        report.print(0).lines,
        vec![
            "NEW /etc/extra.conf (-rw-r--r--)",
            "NEW /lost+found (drwxr-xr-x)",
            "NEW /lost+found/x (-rw-r--r--)",
            "NEW /opt/other (drwxr-xr-x)",
            "NEW /opt/other/deep (-rw-r--r--)",
            "NEW /opt/tool/cache (-rw-r--r--)",
        ]
    );
}

#[test]
fn findings_about_one_path_keep_their_order() {
    let files = vec![
        PackageFile::new(b"/x".to_vec(), Some(0), None, None, None, None),
        PackageFile::new(b"/x".to_vec(), Some(1), None, None, None, None),
    ];
    let db = PackageDb::new(vec![package("first", "1"), package("second", "2")], files, Vec::new());
    // tracked files with one path stay in the order in which they were handed in
    assert_eq!(*db.files()[0].package(), None);
    assert_eq!(*db.files()[1].package(), Some(0));
    assert_eq!(*db.files()[2].package(), Some(1));
    let (mut report, _) = check(&db, &args());
    report.add_new(b"/y".to_vec(), 0o100644);
    report.add_new(b"/x".to_vec(), 0o100600);
    verify(&db, &args(), &mut report, 2, &StatOutcome::NotFound);
    verify(&db, &args(), &mut report, 1, &StatOutcome::NotFound);
    report.add_new(b"/".to_vec(), 0o40755);
    report.sort();
    assert_eq!(
        report.print(0).lines,
        vec![
            "NEW / (drwxr-xr-x)",
            "NEW /x (-rw-------)",
            "MISSING /x (package second-2)",
            "MISSING /x (package first-1)",
            "NEW /y (-rw-r--r--)",
        ]
    );
}

#[test]
fn the_walk_goes_into_a_directory_that_is_new() {
    let file = PackageFile::new(b"/opt/app/run".to_vec(), Some(0), None, None, None, None);
    let db = PackageDb::new(vec![package("app", "3")], vec![file], Vec::new());
    let (mut report, _) = check(&db, &args());
    let probe = |is_dir: bool, is_symlink: bool, fs_type: Option<i64>| EntryProbe {
        canonical: Resolution::Unresolved,
        is_dir,
        is_symlink,
        fs_type,
        mode: Some(0o40700),
    };
    // a new directory on an ordinary filesystem is reported and gone into
    assert!(check_new_ent(b"/srv".to_vec(), &probe(true, false, Some(0xef53)), &db, &mut report));
    assert!(check_new_ent(b"/mnt".to_vec(), &probe(true, false, None), &db, &mut report));
    // a new directory is reported but not gone into where it is a symbolic
    // link or lies on a filesystem that the kernel makes up
    assert!(!check_new_ent(b"/lnk".to_vec(), &probe(true, true, Some(0xef53)), &db, &mut report));
    assert!(!check_new_ent(b"/sys".to_vec(), &probe(true, false, Some(0x62656572)), &db, &mut report));
    assert!(!check_new_ent(b"/f".to_vec(), &probe(false, false, None), &db, &mut report));
    // what is known is gone into by the same rule, and not reported
    assert!(check_new_ent(b"/opt".to_vec(), &probe(true, false, Some(0xef53)), &db, &mut report));
    assert!(!check_new_ent(b"/opt/app".to_vec(), &probe(true, false, Some(0x9fa0)), &db, &mut report));
    assert_eq!(
        report.print(0).lines,
        vec![
            "NEW /srv (drwx------)",
            "NEW /mnt (drwx------)",
            "NEW /lnk (drwx------)",
            "NEW /sys (drwx------)",
            "NEW /f (drwx------)",
        ]
    );
}

#[test]
fn a_run_ends_with_the_report_sorted_and_printed() {
    let file = PackageFile::new(b"/var/log/old.log".to_vec(), Some(0), None, None, None, None);
    let db = PackageDb::new(vec![package("logger", "1")], vec![file], Vec::new());
    let (mut report, _) = check(&db, &args());
    report.add_new(b"/srv/b".to_vec(), 0o100644);
    verify(&db, &args(), &mut report, index_of(&db, b"/var/log/old.log"), &StatOutcome::NotFound);
    verify(&db, &args(), &mut report, index_of(&db, b"/var"), &StatOutcome::NotFound);
    report.add_new(b"/srv/a".to_vec(), 0o40755);
    report.add_new(b"/tmp/x".to_vec(), 0o100600);
    let printed = report.finish(2);
    assert_eq!(
        printed.lines,
        vec![
            "NEW /srv/a (drwxr-xr-x)",
            "NEW /srv/b (-rw-r--r--)",
            "MISSING /var (package None)",
        ]
    );
    assert_eq!(
        printed.filtered,
        vec!["/tmp/x filtered out by regex", "/var/log/old.log filtered out by regex"]
    );
    let paths: Vec<&[u8]> = report.items().iter().map(|i| i.path().as_slice()).collect();
    let expected: Vec<&[u8]> = vec![b"/srv/a", b"/srv/b", b"/tmp/x", b"/var", b"/var/log/old.log"];
    assert_eq!(paths, expected);
    assert!(report.finish(0).filtered.is_empty());
}

#[test]
fn the_filesystem_is_asked_for_of_directories_alone() {
    assert!(asks_filesystem(true, false));
    assert!(!asks_filesystem(true, true));
    assert!(!asks_filesystem(false, false));
    assert!(!asks_filesystem(false, true));
    for (is_dir, is_symlink) in [(true, true), (false, false), (false, true)] {
        for fs in [None, Some(0xef53), Some(0x9fa0)] {
            assert!(!should_recurse(is_dir, is_symlink, fs));
        }
    }
}
