use pkgaudit::bytes::{piece, split_ranges};
use pkgaudit::dpkgcsums::{dpkgcsums, try_dpkgcsums, SumIndex};
use pkgaudit::dpkgquery::{chunk_files, chunk_ranges, parse_header, trim_start, try_parse_header};
use pkgaudit::hex::{decode_hex, try_decode_hex, HexError};
use pkgaudit::numbers::{parse_i64, parse_unsigned, NumberError};
use pkgaudit::rpmdump::{
    get_rpm_dump, parse_line, try_get_rpm_dump, try_parse_line, DumpCause, DumpError, DumpField,
};
use pkgaudit::rpmlist::{get_rpm_list, is_list_line, is_rpm_list, parse_list_line, term};

fn pieces<'a>(s: &'a [u8], sep: u8) -> Vec<&'a [u8]> {
    split_ranges(s, sep).into_iter().map(|r| piece(s, r)).collect()
}

#[test]
fn splitting_agrees_with_the_standard_library() {
    let samples: [&[u8]; 8] = [b"", b"a", b" ", b"a b", b" a  b ", b"  ", b"a\nb\n", b"\n\n\nx"];
    for s in samples {
        for sep in [b' ', b'\n'] {
            let expected: Vec<&[u8]> = s.split(|c| *c == sep).collect();
            assert_eq!(pieces(s, sep), expected, "{:?}", s);
        }
    }
    assert_eq!(split_ranges(b"ab cd", b' '), vec![(0, 2), (3, 5)]);
    assert_eq!(split_ranges(b"", b' '), vec![(0, 0)]);
    assert_eq!(split_ranges(b" ", b' '), vec![(0, 0), (1, 1)]);
}

#[test]
fn numbers_are_read_as_the_standard_library_reads_them() {
    let samples = [
        "", "0", "7", "8", "9", "10", "+5", "-5", "+", "-", "++1", "+-1", "-+1", "--1", "007",
        " 1", "1 ", "1_000", "12a", "a12", "4294967295", "4294967296", "37777777777",
        "40000000000", "18446744073709551615", "18446744073709551616",
        "99999999999999999999999999", "9223372036854775807", "9223372036854775808",
        "-9223372036854775808", "-9223372036854775809", "-0", "+0", "1e3", "0x10", "१२",
        "99999999999999999999x", "-99999999999999999999x", "x99999999999999999999",
    ];
    let kind = |e: &std::num::ParseIntError| match e.kind() {
        std::num::IntErrorKind::Empty => NumberError::Empty,
        std::num::IntErrorKind::InvalidDigit => NumberError::InvalidDigit,
        std::num::IntErrorKind::PosOverflow => NumberError::PosOverflow,
        std::num::IntErrorKind::NegOverflow => NumberError::NegOverflow,
        _ => unreachable!(),
    };
    for s in samples {
        let b = s.as_bytes();
        assert_eq!(
            parse_unsigned(b, 8, u32::MAX as u64),
            u32::from_str_radix(s, 8).map(|v| v as u64).map_err(|e| kind(&e)),
            "octal {:?}",
            s
        );
        assert_eq!(
            parse_unsigned(b, 10, u64::MAX),
            s.parse::<u64>().map_err(|e| kind(&e)),
            "u64 {:?}",
            s
        );
        assert_eq!(
            parse_unsigned(b, 10, u32::MAX as u64),
            s.parse::<u32>().map(|v| v as u64).map_err(|e| kind(&e)),
            "u32 {:?}",
            s
        );
        assert_eq!(parse_i64(b), s.parse::<i64>().map_err(|e| kind(&e)), "i64 {:?}", s);
    }
    assert_eq!(parse_unsigned(b"0100644", 8, u32::MAX as u64), Ok(0o100644));
    assert_eq!(parse_i64(b"-42"), Ok(-42));
}

#[test]
fn hexadecimal_that_cannot_be_read_pair_by_pair() {
    assert_eq!(try_decode_hex(b"00ff"), Some(Ok(vec![0, 255])));
    assert_eq!(try_decode_hex(b""), Some(Ok(Vec::new())));
    assert_eq!(try_decode_hex(b"zz1"), Some(Err(HexError::InvalidDigit)));
    assert_eq!(try_decode_hex("é1".as_bytes()), Some(Err(HexError::InvalidDigit)));
    // the text ends within a pair
    assert_eq!(try_decode_hex(b"abc"), None);
    assert_eq!(try_decode_hex(b"0"), None);
    // a pair ends within a character
    assert_eq!(try_decode_hex("0€".as_bytes()), None);
    assert_eq!(try_decode_hex("€0".as_bytes()), None);
    assert_eq!(decode_hex("zz1"), Err(HexError::InvalidDigit));
}

const MD5: &str = "5eb63bbbe01eeed093cb22bb8f5acdc3";
const ZEROS: &str = "00000000000000000000000000000000";

fn md5() -> Vec<u8> {
    decode_hex(MD5).unwrap()
}

#[test]
fn one_line_of_a_dump() {
    let line = format!("/usr/bin/tool 1234 1700000000 {} 0100755 root root 0 0 0 X", MD5);
    let file = parse_line(3, line.as_bytes()).unwrap();
    assert_eq!(file.path(), &b"/usr/bin/tool".to_vec());
    assert_eq!(*file.package(), Some(3));
    assert_eq!(*file.size(), Some(1234));
    assert_eq!(*file.mode(), Some(0o100755));
    assert_eq!(*file.chksum(), Some(md5()));
    assert_eq!(*file.time(), Some(1700000000));

    // a path with spaces, and a checksum of zeros
    let line = format!("/usr/share/my own file 10 1 {} 0100644 root root 0 0 0 X", ZEROS);
    let file = parse_line(0, line.as_bytes()).unwrap();
    assert_eq!(file.path(), &b"/usr/share/my own file".to_vec());
    assert_eq!(*file.size(), Some(10));
    assert_eq!(*file.chksum(), None);

    // size and checksum are read for a regular file alone
    let line = format!("/usr/share/doc 4096 5 {} 040755 root root 0 0 0 X", MD5);
    let file = parse_line(0, line.as_bytes()).unwrap();
    assert_eq!(*file.size(), None);
    assert_eq!(*file.mode(), Some(0o40755));
    assert_eq!(*file.chksum(), None);
    assert_eq!(*file.time(), Some(5));
    let file = parse_line(0, b"/bin/sh x 5 zz 0120777 root root 0 0 0 bash").unwrap();
    assert_eq!(*file.size(), None);
    assert_eq!(*file.chksum(), None);
    assert_eq!(*file.mode(), Some(0o120777));

    // an empty checksum is none
    let file = parse_line(0, b"/e 0 -7  0100644 root root 0 0 0 X").unwrap();
    assert_eq!(*file.chksum(), None);
    assert_eq!(*file.time(), Some(-7));
}

#[test]
fn wrong_fields_of_a_dump() {
    let wrong = |field, cause| Err::<(), _>(DumpError { field, cause });
    let parse = |line: &str| parse_line(0, line.as_bytes()).map(|_| ());
    let number = DumpCause::Number;
    assert_eq!(
        parse("/a 1 1 00 9x root root 0 0 0 X"),
        wrong(DumpField::Mode, number(NumberError::InvalidDigit))
    );
    assert_eq!(
        parse("/a 1 1 00  root root 0 0 0 X"),
        wrong(DumpField::Mode, number(NumberError::Empty))
    );
    assert_eq!(
        parse("/a 1 1 00 777777777777 root root 0 0 0 X"),
        wrong(DumpField::Mode, number(NumberError::PosOverflow))
    );
    assert_eq!(
        parse("/a 1x 1 00 0100644 root root 0 0 0 X"),
        wrong(DumpField::Size, number(NumberError::InvalidDigit))
    );
    assert_eq!(
        parse("/a -1 1 00 0100644 root root 0 0 0 X"),
        wrong(DumpField::Size, number(NumberError::InvalidDigit))
    );
    assert_eq!(
        parse("/a 1 1 zz 0100644 root root 0 0 0 X"),
        wrong(DumpField::Checksum, number(NumberError::InvalidDigit))
    );
    assert_eq!(
        parse("/a 1 soon 00 0100644 root root 0 0 0 X"),
        wrong(DumpField::Time, number(NumberError::InvalidDigit))
    );
    assert_eq!(
        parse("/a 1 99999999999999999999 00 040755 root root 0 0 0 X"),
        wrong(DumpField::Time, number(NumberError::PosOverflow))
    );
    assert_eq!(
        parse("/a 1 -99999999999999999999 00 040755 root root 0 0 0 X"),
        wrong(DumpField::Time, number(NumberError::NegOverflow))
    );
    // the mode is looked at first, the time last
    assert_eq!(
        parse("/a x x zz x root root 0 0 0 X"),
        wrong(DumpField::Mode, number(NumberError::InvalidDigit))
    );
    assert_eq!(
        parse("/a x x zz 0100644 root root 0 0 0 X"),
        wrong(DumpField::Size, number(NumberError::InvalidDigit))
    );
    assert_eq!(
        parse_line(0, b"/a 1 1 00 \xff root root 0 0 0 X").map(|_| ()),
        wrong(DumpField::Mode, DumpCause::NotUtf8)
    );
    assert_eq!(
        parse_line(0, b"/a 1 1 \xff 0100644 root root 0 0 0 X").map(|_| ()),
        wrong(DumpField::Checksum, DumpCause::NotUtf8)
    );
    assert_eq!(
        parse_line(0, b"/a 1 \xff 00 040755 root root 0 0 0 X").map(|_| ()),
        wrong(DumpField::Time, DumpCause::NotUtf8)
    );
}

#[test]
fn lines_of_a_dump_that_cannot_be_read() {
    assert!(try_parse_line(0, b"").is_none());
    assert!(try_parse_line(0, b"(contains no files)").is_none());
    assert!(try_parse_line(0, b"1 1 00 0100644 root root 0 0 0 X").is_none());
    assert!(try_parse_line(0, b"/a 1 1 abc 0100644 root root 0 0 0 X").is_none());
    // the odd checksum is not looked at where the file is no regular file
    assert!(try_parse_line(0, b"/a 1 1 abc 040755 root root 0 0 0 X").is_some());
    assert!(try_parse_line(0, b"/a 1 1 00 0100644 root root 0 0 0 X").is_some());
}

#[test]
fn a_whole_dump() {
    let out = format!(
        "/usr/bin/tool 4 9 {} 0100755 root root 0 0 0 X\n\n/usr/share/tool 0 9 {} 040755 root root 0 0 0 X\n",
        MD5, ZEROS
    );
    let files = get_rpm_dump(out.as_bytes(), 7).unwrap();
    assert_eq!(files.len(), 2);
    assert_eq!(files[0].path(), &b"/usr/bin/tool".to_vec());
    assert_eq!(*files[0].package(), Some(7));
    assert_eq!(files[1].path(), &b"/usr/share/tool".to_vec());
    assert_eq!(get_rpm_dump(b"(contains no files)\n", 0).unwrap().len(), 0);
    assert_eq!(get_rpm_dump(b"", 0).unwrap().len(), 0);
    // the first wrong line ends the reading, and what follows is not looked at
    let out = b"/a 1 1 00 8 root root 0 0 0 X\nshort line\n";
    assert_eq!(
        get_rpm_dump(out, 0).map(|_| ()),
        Err(DumpError {
            field: DumpField::Mode,
            cause: DumpCause::Number(NumberError::InvalidDigit)
        })
    );
    assert!(try_get_rpm_dump(b"short line\n/a 1 1 00 8 root root 0 0 0 X\n", 0).is_none());
}

#[test]
fn the_list_of_rpms() {
    let out = b"bash\t5.1\t4.el9\tx86_64\nfoo\t(none)\t1\t(none)\n\nbar\t2\t(none)\tnoarch\nx\t(none)\t(none)\ti686\textra\n";
    assert!(is_rpm_list(out));
    let rpms = get_rpm_list(out);
    assert_eq!(rpms.len(), 4);
    assert_eq!(rpms[0].fullname(), &b"bash-5.1-4.el9".to_vec());
    assert_eq!(rpms[0].namestr(), "bash");
    assert_eq!(rpms[0].versionstr(), "5.1-4.el9");
    assert_eq!(rpms[0].archstr(), "x86_64");
    assert_eq!(rpms[0].name_arch(), "bash:x86_64");
    assert_eq!(rpms[1].fullname(), &b"foo-1".to_vec());
    assert_eq!(rpms[1].versionstr(), "1");
    assert_eq!(rpms[1].name_arch(), "foo");
    assert_eq!(rpms[2].fullname(), &b"bar-2".to_vec());
    assert_eq!(rpms[2].versionstr(), "2");
    assert_eq!(rpms[3].fullname(), &b"x".to_vec());
    assert_eq!(rpms[3].versionstr(), "");
    assert_eq!(rpms[3].name_ver_arch(), "x-:i686");
    assert_eq!(get_rpm_list(b"").len(), 0);
    assert_eq!(get_rpm_list(b"\n\n").len(), 0);
    assert_eq!(parse_list_line(b"a\tb\tc\td").fullname(), &b"a-b-c".to_vec());
    assert_eq!(term(b"(none)"), None);
    assert_eq!(term(b"(none"), Some(b"(none".to_vec()));
    assert_eq!(term(b""), Some(Vec::new()));
    assert_eq!(term(b"\xff"), Some(vec![0xff]));
    // a name that is no UTF-8 is kept as it is, and shown with the mark for it
    let odd = parse_list_line(b"caf\xe9\t1\t(none)\tnoarch");
    assert_eq!(odd.fullname(), &b"caf\xe9-1".to_vec());
    assert_eq!(odd.fullnamestr(), "caf\u{fffd}-1");
    assert_eq!(odd.name_arch(), "caf\u{fffd}:noarch");
    assert!(is_list_line(b"a\tb\tc\td"));
    assert!(!is_list_line(b"a\tb\tc"));
    assert!(!is_list_line(b"(none)\tb\tc\td"));
    assert!(!is_rpm_list(b"a\tb\tc\td\nshort\n"));
    assert!(is_rpm_list(b""));
}

#[test]
fn the_checksums_of_a_package() {
    let out = format!(
        "{}  usr/bin/tool\n00ff  usr/share/my file\nzz  usr/x\n00ff usr/y\n\n{}  usr/bin/tool\n\u{e9}  usr/z\n",
        ZEROS, MD5
    );
    let sums = dpkgcsums(out.as_bytes());
    assert_eq!(
        sums,
        vec![
            (b"/usr/bin/tool".to_vec(), vec![0u8; 16]),
            (b"/usr/share/my".to_vec(), vec![0, 255]),
            (b"/usr/bin/tool".to_vec(), md5()),
        ]
    );
    // the last entry for a path is the one that counts
    let index = SumIndex::new(sums);
    assert_eq!(index.find(b"/usr/bin/tool"), Some(&md5()));
    assert_eq!(index.find(b"/usr/share/my"), Some(&vec![0u8, 255]));
    assert_eq!(index.find(b"/usr/x"), None);
    assert_eq!(index.find(b""), None);
    assert_eq!(index.find(b"/usr/share/my file"), None);
    assert_eq!(SumIndex::new(Vec::new()).find(b"/usr/x"), None);
    assert_eq!(dpkgcsums(b""), Vec::new());
    assert_eq!(try_dpkgcsums(b"abc  usr/x\n"), None);
    assert!(try_dpkgcsums(b"\xff  usr/x\n").is_some());
}

#[test]
fn the_packages_of_dpkg_with_their_files() {
    let out = b"bash\t5.1-2\tamd64\tii \t1700000000\n /.\n /bin\n /bin/bash\n!END\ncoreutils\t8.32\tamd64\tii \t-5\n /bin/ls\n\n  \t /usr/share/doc/core utils\n!END\ntrailing";
    let ranges = chunk_ranges(out);
    assert_eq!(ranges.len(), 2);
    assert_eq!(ranges[0].0, 0);
    assert_eq!(ranges[0].1, ranges[1].0);
    assert!(piece(out, ranges[0]).ends_with(b"/bin/bash\n!END\n"));
    assert!(piece(out, ranges[1]).starts_with(b"coreutils\t"));
    assert!(piece(out, ranges[1]).ends_with(b"utils\n!END\n"));

    let (package, mtime) = parse_header(piece(out, ranges[0]));
    assert_eq!(package.fullname(), &b"bash-5.1-2:amd64".to_vec());
    assert_eq!(package.namestr(), "bash");
    assert_eq!(package.versionstr(), "5.1-2");
    assert_eq!(package.archstr(), "amd64");
    assert_eq!(mtime, 1700000000);
    let sums = SumIndex::new(vec![(b"/bin/bash".to_vec(), md5())]);
    let files = chunk_files(piece(out, ranges[0]), 4, mtime, &sums);
    assert_eq!(files.len(), 2);
    assert_eq!(files[0].path(), &b"/bin".to_vec());
    assert_eq!(*files[0].chksum(), None);
    assert_eq!(files[1].path(), &b"/bin/bash".to_vec());
    assert_eq!(*files[1].chksum(), Some(md5()));
    for file in &files {
        assert_eq!(*file.package(), Some(4));
        assert_eq!(*file.size(), None);
        assert_eq!(*file.mode(), None);
        assert_eq!(*file.time(), Some(1700000000));
    }

    let (package, mtime) = parse_header(piece(out, ranges[1]));
    assert_eq!(package.fullname(), &b"coreutils-8.32:amd64".to_vec());
    assert_eq!(package.fullnamestr(), "coreutils-8.32:amd64");
    assert_eq!(mtime, -5);
    let files = chunk_files(piece(out, ranges[1]), 0, mtime, &SumIndex::new(Vec::new()));
    let paths: Vec<&[u8]> = files.iter().map(|f| f.path().as_slice()).collect();
    let expected: Vec<&[u8]> = vec![b"/bin/ls", b"/usr/share/doc/core utils"];
    assert_eq!(paths, expected);

    assert_eq!(chunk_ranges(b""), Vec::new());
    assert_eq!(chunk_ranges(b"!END"), Vec::new());
    assert_eq!(chunk_ranges(b"!END\n!END\n"), vec![(0, 5), (5, 10)]);
    assert!(try_parse_header(b"a\tb\tc\td\n").is_none());
    assert!(try_parse_header(b"a\tb\tc\td\t\n").is_none());
    assert!(try_parse_header(b"a\tb\tc\td\tnow\n").is_none());
    assert!(try_parse_header(b"a\tb\tc\td\t12").is_some());
    assert_eq!(trim_start(b" \t\r\n\x0c/a "), b"/a ");
    assert_eq!(trim_start(b"\x0b/a"), b"\x0b/a");
    assert_eq!(trim_start(b"   "), b"");
}

#[test]
fn an_index_of_many_checksums() {
    let mut sums = Vec::new();
    let mut x: u32 = 7;
    for n in 0..500u32 {
        x = x.wrapping_mul(1103515245).wrapping_add(12345);
        sums.push((format!("/f/{}", x % 200).into_bytes(), n.to_be_bytes().to_vec()));
    }
    let index = SumIndex::new(sums.clone());
    for k in 0..200u32 {
        let path = format!("/f/{}", k).into_bytes();
        let expected = sums.iter().rev().find(|(p, _)| *p == path).map(|(_, s)| s);
        assert_eq!(index.find(&path), expected);
    }
    assert_eq!(index.find(b"/f"), None);
    assert_eq!(index.find(b"/f/200"), None);
    assert_eq!(index.find(b"/g"), None);
}
