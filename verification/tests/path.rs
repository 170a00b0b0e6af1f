use pxsum::path::{normalize, normalize_chars};
use pxsum::{Checksum, PxsumError};

fn ok(path: &str) -> String {
    match normalize(path) {
        Some(s) => s,
        None => panic!("no canonical form: {path:?}"),
    }
}

#[test]
fn t_normalize_stdin() {
    assert_eq!(ok(""), "-");
    assert_eq!(ok("-"), "-");
    assert_eq!(ok("   "), "-");
    assert_eq!(ok(" - "), "-");
    assert_eq!(ok("\t-\n"), "-");
    assert_eq!(ok("\u{3000}-\u{2003}"), "-");
}

#[test]
fn t_normalize_anchor() {
    assert_eq!(ok("foo.png"), "./foo.png");
    assert_eq!(ok("a/b/foo.png"), "./a/b/foo.png");
    assert_eq!(ok("./foo.png"), "./foo.png");
    assert_eq!(ok("../foo.png"), "../foo.png");
    assert_eq!(ok("/foo.png"), "/foo.png");
    assert_eq!(ok(".foo.png"), "./.foo.png");
    assert_eq!(ok("..foo.png"), "./..foo.png");
    assert_eq!(ok("...//foo.png"), "./.../foo.png");
    assert_eq!(ok("skel/assets/firefox.webp"), "./skel/assets/firefox.webp");
}

#[test]
fn t_normalize_trim() {
    assert_eq!(ok("  foo.png  "), "./foo.png");
    assert_eq!(ok("\t/a/foo.png\r\n"), "/a/foo.png");
    assert_eq!(ok("\u{a0}foo.png\u{2028}"), "./foo.png");
    // White space within the path stays.
    assert_eq!(ok(" a b/c d.png "), "./a b/c d.png");
    // What is no white space is not trimmed.
    assert_eq!(ok("\u{200b}foo.png"), "./\u{200b}foo.png");
}

#[test]
fn t_normalize_slashes() {
    assert_eq!(ok("a//b.png"), "./a/b.png");
    assert_eq!(ok("a////b///c.png"), "./a/b/c.png");
    assert_eq!(ok("//a//b.png"), "/a/b.png");
    assert_eq!(ok(".//a.png"), "./a.png");
    assert_eq!(ok("..//a.png"), "../a.png");
    assert_eq!(ok("///a.png"), "/a.png");
}

#[test]
fn t_normalize_dot_segments() {
    assert_eq!(ok("a/./b.png"), "./a/b.png");
    assert_eq!(ok("/./a.png"), "/a.png");
    assert_eq!(ok("././a.png"), "./a.png");
    assert_eq!(ok("./././a.png"), "./a.png");
    assert_eq!(ok("/a/././././b.png"), "/a/b.png");
    assert_eq!(ok("a/.//./b.png"), "./a/b.png");
    assert_eq!(ok(".././a.png"), "../a.png");
    assert_eq!(ok("/a/./b/./c.png"), "/a/b/c.png");
    // Only whole segments go.
    assert_eq!(ok("a/.b/c.png"), "./a/.b/c.png");
    assert_eq!(ok("a/b./c.png"), "./a/b./c.png");
    assert_eq!(ok("a/../b.png"), "./a/../b.png");
    assert_eq!(ok("/a/../b.png"), "/a/../b.png");
}

#[test]
fn t_normalize_rejects() {
    for path in [
        "foo", "foo.txt", "foo.png.bak", ".png", "/.png", "a/.png", "a\\b.png", "\\a.png",
        "a\\.png", "a\nb.png", "a\u{7f}.png", "a\u{1f}b.png", "a\u{85}b.png", "a\u{9f}b.png",
        "a\0.png", "/../a.png", "/./../a.png", "//..//a.png", "/.//.././a.png", "--", "- -",
    ] {
        assert_eq!(normalize(path), None, "{path:?}");
    }
    // Neighbours of the control characters are fine.
    assert_eq!(ok("a\u{a0}b.png"), "./a\u{a0}b.png");
    assert_eq!(ok("a\u{7e}b.png"), "./a~b.png");
    // Up is fine where there is something to climb from.
    assert_eq!(ok("../../a.png"), "../../a.png");
    assert_eq!(ok("/a/../../b.png"), "/a/../../b.png");
}

#[test]
fn t_normalize_idempotent() {
    for path in [
        "", "-", "foo.png", " a//b/./c.JPEG ", "/./x/./y//z.webp", "../..//up.tif",
        "./././a.gif", "é/ü.avif", "//a.jxl", ".hidden.bmp", "a b.ico", "/a/../b.jp2",
    ] {
        let once = ok(path);
        assert_eq!(ok(&once), once, "{path:?}");
    }
}

#[test]
fn t_normalize_case_kept() {
    assert_eq!(ok("Foo.PNG"), "./Foo.PNG");
    assert_eq!(ok("skel/assets/cmyk.JPG"), "./skel/assets/cmyk.JPG");
    assert_eq!(ok("skel/assets/frolics.TIF"), "./skel/assets/frolics.TIF");
}

#[test]
fn t_normalize_chars() {
    let chars: Vec<char> = " a//b.png ".chars().collect();
    assert_eq!(normalize_chars(&chars).as_deref(), Some("./a/b.png"));
    assert_eq!(normalize_chars(&[]).as_deref(), Some("-"));
    assert_eq!(normalize_chars(&['x']), None);
}

#[test]
fn t_set_path() {
    let mut chk = Checksum::new(true);
    let before = chk.chk();
    assert_eq!(chk.set_path(" a//b.png "), Ok(()));
    assert_eq!(chk.src(), "./a/b.png");
    assert!(!chk.stdin());
    assert_eq!(chk.set_path("nope"), Err(PxsumError::Path));
    assert_eq!(chk.src(), "");
    assert!(chk.stdin());
    assert_eq!(chk.set_path("-"), Ok(()));
    assert_eq!(chk.src(), "-");
    assert!(chk.stdin());
    assert_eq!(chk.set_path("/../x.png"), Err(PxsumError::Path));
    assert_eq!(chk.src(), "");
    // The hash is none of its business.
    assert_eq!(chk.chk(), before);
    assert!(chk.strict());
}

#[test]
fn t_crunch_path() {
    let mut chk = Checksum::new(false);
    assert_eq!(chk.crunch_path(b"skel/assets/firefox.png"), Ok(()));
    assert_eq!(chk.src(), "./skel/assets/firefox.png");
    assert_eq!(chk.crunch_path("bilder/grüße.png".as_bytes()), Ok(()));
    assert_eq!(chk.src(), "./bilder/grüße.png");
    // Bytes that are no text are no path.
    assert_eq!(chk.crunch_path(&[b'a', 0xff, b'.', b'p', b'n', b'g']), Err(PxsumError::Path));
    assert_eq!(chk.src(), "");
    assert_eq!(chk.crunch_path(&[0xc3, b'.', b'p', b'n', b'g']), Err(PxsumError::Path));
    assert_eq!(chk.crunch_path(b"a.txt"), Err(PxsumError::Path));
    assert_eq!(chk.crunch_path(b""), Ok(()));
    assert_eq!(chk.src(), "-");
}
