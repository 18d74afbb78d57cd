use pkgaudit::bytes::bytes_equal;
use pkgaudit::path::{covers_at, dir_at, path_less};
use pkgaudit::sort::sort_by_key;

#[test]
fn order_is_byte_lexicographic() {
    assert!(path_less(b"/a", b"/b"));
    assert!(path_less(b"/a", b"/a/b"));
    assert!(path_less(b"", b"/"));
    assert!(path_less(b"/a.b", b"/a/b"));
    assert!(path_less(b"/A", b"/a"));
    assert!(path_less(b"/a", &[b'/', 0xff]));
    assert!(!path_less(b"/a/b", b"/a"));
    assert!(!path_less(b"/a", b"/a"));
    assert!(!path_less(b"", b""));
}

#[test]
fn order_agrees_with_the_order_of_byte_slices() {
    let samples: [&[u8]; 8] = [b"", b"/", b"/a", b"/a/b", b"/a.b", b"/b", b"/a/", b"/\xff"];
    for a in samples {
        for b in samples {
            assert_eq!(path_less(a, b), a < b, "{:?} {:?}", a, b);
            assert_eq!(bytes_equal(a, b), a == b, "{:?} {:?}", a, b);
        }
    }
}

#[test]
fn a_directory_covers_itself_and_what_lies_under_it() {
    let p = b"/usr/bin/tool";
    // "/usr" is what stands before the cut at 4
    assert!(covers_at(p, 4, b"/usr"));
    assert!(covers_at(p, 4, b"/usr/lib"));
    assert!(covers_at(p, 4, b"/usr/bin/tool"));
    assert!(!covers_at(p, 4, b"/usrx"));
    assert!(!covers_at(p, 4, b"/us"));
    assert!(!covers_at(p, 4, b"/"));
    assert!(!covers_at(p, 4, b"/var"));
    assert!(covers_at(p, 8, b"/usr/bin"));
    assert!(!covers_at(p, 8, b"/usr"));
}

#[test]
fn the_directories_above_a_path() {
    let dirs = |p: &[u8]| -> Vec<Vec<u8>> {
        (0..p.len() + 2).filter(|k| dir_at(p, *k)).map(|k| p[..k].to_vec()).collect()
    };
    let expected: Vec<&[u8]> = vec![b"/", b"/usr", b"/usr/bin"];
    assert_eq!(dirs(b"/usr/bin/tool"), expected);
    let expected: Vec<&[u8]> = vec![b"/"];
    assert_eq!(dirs(b"/etc"), expected);
    assert_eq!(dirs(b"/"), Vec::<Vec<u8>>::new());
    assert_eq!(dirs(b""), Vec::<Vec<u8>>::new());
    assert_eq!(dirs(b"etc"), Vec::<Vec<u8>>::new());
    let expected: Vec<&[u8]> = vec![b"a", b"a/b"];
    assert_eq!(dirs(b"a/b/c"), expected);
    // a separator after a separator cuts nothing off
    let expected: Vec<&[u8]> = vec![b"/", b"/a", b"/a//b"];
    assert_eq!(dirs(b"/a//b/"), expected);
}

#[test]
fn the_root_covers_what_begins_with_a_slash() {
    let p = b"/usr/bin";
    assert!(covers_at(p, 1, b"/"));
    assert!(covers_at(p, 1, b"/var"));
    assert!(covers_at(p, 1, b"//"));
    assert!(!covers_at(p, 1, b""));
    assert!(!covers_at(p, 1, b"usr"));
}

#[test]
fn sorting_keeps_every_value() {
    let input: Vec<Vec<u8>> = ["/b", "/a/x", "/a", "/c", "/a", "/a.b", ""]
        .iter()
        .map(|p| p.as_bytes().to_vec())
        .collect();
    let mut expected = input.clone();
    expected.sort();
    assert_eq!(sort_by_key(input), expected);
    assert_eq!(sort_by_key(Vec::<Vec<u8>>::new()), Vec::<Vec<u8>>::new());
}

#[test]
fn sorting_a_long_list() {
    let mut input: Vec<Vec<u8>> = Vec::new();
    let mut x: u32 = 12345;
    for _ in 0..2000 {
        x = x.wrapping_mul(1103515245).wrapping_add(12345);
        input.push(format!("/{}/{}", x % 97, x % 1009).into_bytes());
    }
    let mut expected = input.clone();
    expected.sort();
    assert_eq!(sort_by_key(input), expected);
}
