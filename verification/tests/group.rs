use pxsum::group::grouped_exit;
use pxsum::{Grouped, PxsumError};

fn hash(first: u8, last: u8) -> [u8; 32] {
    let mut h = [0_u8; 32];
    h[0] = first;
    h[31] = last;
    h
}

fn hex(h: &[u8; 32]) -> String {
    let mut s = String::new();
    for b in h {
        s.push_str(&format!("{b:02x}"));
    }
    s
}

#[test]
fn t_grouped_empty() {
    let g = Grouped::new();
    assert_eq!(g.len(), 0);
    assert!(g.lines(false).is_empty());
    assert!(g.lines(true).is_empty());
    assert_eq!(grouped_exit(g.lines(false).len(), false), Err(PxsumError::Noop));
    assert_eq!(grouped_exit(g.lines(true).len(), true), Err(PxsumError::NoDupes));
}

#[test]
fn t_grouped_order() {
    let mut g = Grouped::new();
    g.insert(hash(9, 0), "./z.png".to_owned());
    g.insert(hash(1, 2), "./b.png".to_owned());
    g.insert(hash(9, 0), "./a.png".to_owned());
    g.insert(hash(1, 1), "./c.png".to_owned());
    g.insert(hash(9, 0), "./m.png".to_owned());
    g.insert(hash(0xff, 0), "./0.png".to_owned());
    g.insert(hash(1, 2), "./B.png".to_owned());
    g.insert(hash(0, 0xff), "./y.png".to_owned());
    assert_eq!(g.len(), 8);
    assert_eq!(
        g.lines(false),
        [
            hex(&hash(0, 0xff)),
            "  ./y.png".to_owned(),
            hex(&hash(1, 1)),
            "  ./c.png".to_owned(),
            hex(&hash(1, 2)),
            "  ./B.png".to_owned(),
            "  ./b.png".to_owned(),
            hex(&hash(9, 0)),
            "  ./a.png".to_owned(),
            "  ./m.png".to_owned(),
            "  ./z.png".to_owned(),
            hex(&hash(0xff, 0)),
            "  ./0.png".to_owned(),
        ],
    );
    assert_eq!(
        g.lines(true),
        [
            hex(&hash(1, 2)),
            "  ./B.png".to_owned(),
            "  ./b.png".to_owned(),
            hex(&hash(9, 0)),
            "  ./a.png".to_owned(),
            "  ./m.png".to_owned(),
            "  ./z.png".to_owned(),
        ],
    );
    assert_eq!(grouped_exit(g.lines(true).len(), true), Ok(()));
}

#[test]
fn t_grouped_once() {
    let mut g = Grouped::new();
    for _ in 0..3 {
        g.insert(hash(5, 5), "./a.png".to_owned());
        g.insert(hash(5, 5), "./b.png".to_owned());
        g.insert(hash(4, 5), "./a.png".to_owned());
    }
    assert_eq!(g.len(), 3);
    assert_eq!(
        g.lines(false),
        [hex(&hash(4, 5)), "  ./a.png".to_owned(), hex(&hash(5, 5)), "  ./a.png".to_owned(), "  ./b.png".to_owned()],
    );
}

#[test]
fn t_no_dupes() {
    // Every hash on its own: with duplicates only, nothing is printed, and
    // the run ends with the code for nothing found.
    let mut g = Grouped::new();
    for i in 0..20_u8 {
        g.insert(hash(i.wrapping_mul(37), i), format!("./{i}.png"));
    }
    assert_eq!(g.len(), 20);
    assert_eq!(g.lines(false).len(), 40);
    let lines = g.lines(true);
    assert!(lines.is_empty());
    let exit = grouped_exit(lines.len(), true);
    assert_eq!(exit, Err(PxsumError::NoDupes));
    assert_eq!(exit.map_err(PxsumError::exit_code), Err(2));
    assert_eq!(grouped_exit(40, false), Ok(()));
}

#[test]
fn t_grouped_many() {
    // Put in out of order, listed in order.
    let mut g = Grouped::new();
    let mut want: Vec<([u8; 32], String)> = Vec::new();
    let mut x: u32 = 12345;
    for _ in 0..500 {
        x = x.wrapping_mul(1103515245).wrapping_add(12345);
        let h = hash((x >> 16) as u8 % 7, (x >> 8) as u8 % 3);
        let p = format!("./{}.png", (x >> 4) % 50);
        g.insert(h, p.clone());
        if !want.contains(&(h, p.clone())) {
            want.push((h, p));
        }
    }
    want.sort();
    assert_eq!(g.len(), want.len());
    let mut lines = Vec::new();
    let mut last: Option<[u8; 32]> = None;
    for (h, p) in &want {
        if last != Some(*h) {
            lines.push(hex(h));
            last = Some(*h);
        }
        lines.push(format!("  {p}"));
    }
    assert_eq!(g.lines(false), lines);
}

#[test]
fn t_grouped_reads_back() {
    // What a grouped run prints, a verify run reads as plain lines.
    let mut g = Grouped::new();
    g.insert(hash(2, 0), "./b.png".to_owned());
    g.insert(hash(1, 0), "./c.png".to_owned());
    g.insert(hash(2, 0), "./a.png".to_owned());
    let plain = pxsum::ManifestLines::new(g.lines(false)).collect();
    assert_eq!(
        plain,
        [
            format!("{}  ./c.png", hex(&hash(1, 0))),
            format!("{}  ./a.png", hex(&hash(2, 0))),
            format!("{}  ./b.png", hex(&hash(2, 0))),
        ],
    );
    let mut chk = pxsum::Checksum::new(false);
    for line in &plain {
        assert_eq!(chk.verify_line(line), Ok(()));
        assert_eq!(&chk.to_string(), line);
    }
}
