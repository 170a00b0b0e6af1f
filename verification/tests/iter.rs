use pxsum::iter::{all_hex, normalize_line};
use pxsum::ManifestLines;

const A: &str = "1e0e4f7ea2f1ad4b2ee13ddfd6bbbe5a4a1b32ab64e3e1b8c2e3a4f9d0c1b2a0";
const B: &str = "9b7c53a8f3a1d2e4c5b6a79888776655443322110ffeeddccbbaa99887766551";
const C: &str = "ffffffffffffffffffffffffffffffffffffffffffffffffffffffffffffffff";

fn lines(text: &str) -> Vec<String> {
    text.lines().map(String::from).collect()
}

fn normalized(text: &str) -> Vec<String> {
    ManifestLines::new(lines(text)).collect()
}

/// A plain manifest, as a crunch run prints it.
fn plain() -> String {
    format!(
        "{A}  ./assets/ace.jp2\n{A}  ./assets/ace.jxl\n{A}  ./assets/ace.webp\n\
         {B}  ./assets/ash.jpg\n{C}  ./assets/atom.avif\n{C}  ./assets/atom.png\n",
    )
}

/// The same manifest, grouped.
fn grouped() -> String {
    format!(
        "{A}\n  ./assets/ace.jp2\n  ./assets/ace.jxl\n  ./assets/ace.webp\n\
         {B}\n  ./assets/ash.jpg\n{C}\n  ./assets/atom.avif\n  ./assets/atom.png\n",
    )
}

/// The lines of a manifest, trimmed, without the empty ones, in order.
fn reference(text: &str) -> Vec<String> {
    let mut out: Vec<String> = Vec::new();
    for line in text.lines() {
        let line = line.trim();
        if !line.is_empty() {
            out.push(line.to_owned());
        }
    }
    out.sort_unstable();
    out
}

#[test]
fn t_manifest_lines() {
    let expected = reference(&plain());
    for src in [plain(), grouped()] {
        let mut out = Vec::new();
        let mut iter = ManifestLines::new(lines(&src));
        while let Some(line) = iter.next() {
            out.push(line);
        }
        out.sort_unstable();
        assert_eq!(out, expected, "Normalized {src} mismatches straight read!");
    }
}

#[test]
fn t_manifest_lines_strict() {
    // The same with hashes that carry the strictness flag.
    let strict = |text: String| text.replace(&A[..2], "1f").replace(&B[..2], "9b").replace(&C[..2], "ff");
    let expected = reference(&strict(plain()));
    for src in [strict(plain()), strict(grouped())] {
        let mut out = Vec::new();
        for line in normalized(&src) {
            out.push(line);
        }
        out.sort_unstable();
        assert_eq!(out, expected, "Normalized {src} mismatches straight read!");
    }
}

#[test]
fn t_grouped_keeps_order() {
    // Not only the same lines: the same order.
    let want: Vec<String> = plain().lines().map(String::from).collect();
    assert_eq!(normalized(&grouped()), want);
    assert_eq!(normalized(&plain()), want);
}

#[test]
fn t_blank_lines_and_trailing_space() {
    let text = format!("\n   \n{A}  a.png  \n\t\n{B}\t\n\n  b.png\r\n  c.png \n \n{C}  d.png\n\n");
    assert_eq!(
        normalized(&text),
        [
            format!("{A}  a.png"),
            format!("{B}  b.png"),
            format!("{B}  c.png"),
            format!("{C}  d.png"),
        ],
    );
}

#[test]
fn t_members_need_a_group() {
    // A member before any header, and one after a plain line, stay as they are.
    let text = format!("  orphan.png\n{A}\n  a.png\n{B}  b.png\n  stray.png\n{C}\n{C}\n  c.png\n");
    assert_eq!(
        normalized(&text),
        [
            "  orphan.png".to_owned(),
            format!("{A}  a.png"),
            format!("{B}  b.png"),
            "  stray.png".to_owned(),
            format!("{C}  c.png"),
        ],
    );
}

#[test]
fn t_headers() {
    // Capital digits make a header too; it is kept as written.
    let upper = A.to_ascii_uppercase();
    assert_eq!(normalized(&format!("{upper}\n  a.png\n")), [format!("{upper}  a.png")]);
    // 63 and 65 digits, and 64 with a stranger among them, make none.
    for bad in [&A[1..], &format!("{A}0"), &format!("{}g", &A[1..]), &format!("{}é", &A[2..])] {
        assert_eq!(
            normalized(&format!("{B}\n{bad}\n  a.png\n")),
            [bad.to_string(), "  a.png".to_owned()],
            "{bad}",
        );
    }
    // Space before a header makes it a member, or a stray line.
    assert_eq!(normalized(&format!(" {A}\n  a.png\n")), [format!(" {A}"), "  a.png".to_owned()]);
    // Three spaces are two and one.
    assert_eq!(normalized(&format!("{A}\n   a.png\n")), [format!("{A}   a.png")]);
    // One space is none.
    assert_eq!(normalized(&format!("{A}\n a.png\n  b.png\n")), [" a.png", "  b.png"]);
}

#[test]
fn t_next_runs_dry() {
    let mut iter = ManifestLines::new(Vec::new());
    assert_eq!(iter.next(), None);
    assert_eq!(iter.next(), None);

    let mut iter = ManifestLines::new(lines(&format!("\n{A}\n\n")));
    assert_eq!(iter.next(), None);
    assert_eq!(iter.next(), None);

    let mut iter = ManifestLines::new(lines(&format!("{A}\n  a.png\n\n  b.png\n{B}\n")));
    assert_eq!(iter.next(), Some(format!("{A}  a.png")));
    assert_eq!(iter.next(), Some(format!("{A}  b.png")));
    assert_eq!(iter.next(), None);
    assert_eq!(iter.next(), None);
    assert!(iter.collect().is_empty());
}

#[test]
fn t_normalize_line() {
    let mut group = None;
    assert_eq!(normalize_line(&mut group, "  a.png".to_owned()), Some("  a.png".to_owned()));
    assert_eq!(group, None);
    assert_eq!(normalize_line(&mut group, format!("{A} \t")), None);
    assert_eq!(group.as_deref(), Some(A));
    assert_eq!(normalize_line(&mut group, "\u{3000}".to_owned()), None);
    assert_eq!(group.as_deref(), Some(A));
    assert_eq!(normalize_line(&mut group, "  a.png\u{a0}".to_owned()), Some(format!("{A}  a.png")));
    assert_eq!(group.as_deref(), Some(A));
    assert_eq!(normalize_line(&mut group, format!("{B}")), None);
    assert_eq!(group.as_deref(), Some(B));
    assert_eq!(normalize_line(&mut group, "x".to_owned()), Some("x".to_owned()));
    assert_eq!(group, None);
}

#[test]
fn t_all_hex() {
    let chars = |s: &str| s.chars().collect::<Vec<char>>();
    assert!(all_hex(&chars("")));
    assert!(all_hex(&chars("0123456789abcdefABCDEF")));
    for bad in ["g", "G", " ", "/", ":", "@", "`", "0x", "é", "０"] {
        assert!(!all_hex(&chars(bad)), "{bad}");
    }
}
