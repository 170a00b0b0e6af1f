use pxsum::check_extension;
use pxsum::ext::check_extension_chars;

const EXT3: [&str; 11] = ["bmp", "gif", "ico", "jp2", "j2c", "j2k", "jpc", "jpg", "jxl", "png", "tif"];
const EXT4: [&str; 5] = ["avif", "jpeg", "webp", "jpg2", "tiff"];

fn chars(s: &str) -> Vec<char> {
    s.chars().collect()
}

/// Every casing of `ext`, by the bits of a counter.
fn casings(ext: &str) -> Vec<String> {
    let letters: Vec<char> = ext.chars().collect();
    let mut out = Vec::new();
    for mask in 0..(1_u32 << letters.len()) {
        let mut s = String::new();
        for (i, c) in letters.iter().enumerate() {
            if mask & (1 << i) != 0 {
                s.push(c.to_ascii_uppercase());
            } else {
                s.push(*c);
            }
        }
        out.push(s);
    }
    out
}

#[test]
fn t_extension_every_casing() {
    for ext in EXT3.iter().chain(EXT4.iter()) {
        for cased in casings(ext) {
            let path = format!("foo.{cased}");
            assert!(check_extension(path.as_bytes()), "{path}");
            assert!(check_extension_chars(&chars(&path)), "{path}");
        }
    }
}

#[test]
fn t_extension_boundary() {
    assert!(!check_extension(b"foo/.png"));
    assert!(!check_extension(b"foo\\.png"));
    assert!(!check_extension(b".png"));
    assert!(!check_extension(b"/.jpeg"));
    assert!(!check_extension(b"\\.jpeg"));
    assert!(!check_extension(b".jpeg"));
    assert!(check_extension(b"a.png"));
    assert!(check_extension(b"a.jpeg"));
    assert!(check_extension(b"dir/a.png"));
    assert!(!check_extension_chars(&chars("foo/.png")));
    assert!(!check_extension_chars(&chars("foo\\.png")));
}

#[test]
fn t_extension_unknown() {
    for path in [
        "", "png", "foo", "foo.", "foo.txt", "foo.avi", "foo.pn", "foo.pngg", "foo.jpe",
        "foo.jpegg", "foo.heic", "foo.png ", "foo.png/", "foo.p.ng", "foo.tga", "foo.svg",
        "foo.jp3", "foo.j2p", "foopng", "foo_png", "foo.webm", "foo.tifff",
    ] {
        assert!(!check_extension(path.as_bytes()), "{path}");
        assert!(!check_extension_chars(&chars(path)), "{path}");
    }
}

#[test]
fn t_extension_not_ascii() {
    // A name of other letters before the dot is a name.
    assert!(check_extension("é.png".as_bytes()));
    assert!(check_extension_chars(&chars("é.png")));
    assert!(check_extension("写真.jpeg".as_bytes()));
    assert!(check_extension_chars(&chars("写真.jpeg")));
    // Letters that only look like the extension are none.
    assert!(!check_extension("a.pńg".as_bytes()));
    assert!(!check_extension_chars(&chars("a.pńg")));
    // Raw bytes that are no text at all.
    assert!(check_extension(&[0xff, b'.', b'g', b'i', b'f']));
    assert!(!check_extension(&[b'a', b'.', b'g', 0xe9, b'f']));
}

#[test]
fn t_extension_lower_code() {
    assert_eq!(pxsum::ext::lower_code(u32::from(b'A')), u32::from(b'a'));
    assert_eq!(pxsum::ext::lower_code(u32::from(b'Z')), u32::from(b'z'));
    assert_eq!(pxsum::ext::lower_code(u32::from(b'a')), u32::from(b'a'));
    assert_eq!(pxsum::ext::lower_code(u32::from(b'@')), u32::from(b'@'));
    assert_eq!(pxsum::ext::lower_code(u32::from(b'[')), u32::from(b'['));
    assert_eq!(pxsum::ext::lower_code(0x1_0041), 0x1_0041);
}
