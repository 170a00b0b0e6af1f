use pxsum::{set_threads, CommandLine, PxsumError, Settings, _main};

fn args(list: &[&[u8]]) -> Vec<Vec<u8>> {
    list.iter().map(|s| s.to_vec()).collect()
}

fn parse(list: &[&[u8]]) -> CommandLine {
    match Settings::from_iter(args(list), 8) {
        Ok(line) => line,
        Err(e) => panic!("{e:?}"),
    }
}

fn paths(line: &CommandLine) -> Vec<&[u8]> {
    line.paths.iter().map(Vec::as_slice).collect()
}

fn dirs(line: &CommandLine) -> Vec<&[u8]> {
    line.dirs.iter().map(Vec::as_slice).collect()
}

fn threads_after(start: usize, wanted: &[u8]) -> usize {
    let mut threads = start;
    set_threads(&mut threads, wanted);
    threads
}

/// The version and help flags work the same way: they end the reading.
fn run_version_help(short: &[u8], long: &[u8], err: PxsumError) {
    // Straight cases.
    assert_eq!(Settings::from_iter(vec![short.to_vec()], 4).err(), Some(err));
    assert_eq!(Settings::from_iter(vec![long.to_vec()], 4).err(), Some(err));

    // Mixed args short.
    let many = vec![
        Vec::new(),
        b"skel/assets/carl.jpg".to_vec(),
        short.to_vec(),
        b"skel/assets/empty.jpg".to_vec(),
    ];
    assert_eq!(Settings::from_iter(many, 4).err(), Some(err));

    // Mixed args long.
    let many = vec![
        Vec::new(),
        b"skel/assets/carl.jpg".to_vec(),
        long.to_vec(),
        b"skel/assets/empty.jpg".to_vec(),
    ];
    assert_eq!(Settings::from_iter(many, 4).err(), Some(err));
}

/// A flag is off (or on) without its argument and the other way with it.
fn toggle_flag(flag: &[u8], get: fn(&Settings) -> bool, val: bool) {
    // Without It.
    let many = vec![
        Vec::new(),
        b"skel/assets/carl.jpg".to_vec(),
        b"skel/assets/empty.jpg".to_vec(),
    ];
    let settings = match Settings::from_iter(many, 4) {
        Ok(line) => line.settings,
        Err(_) => panic!("Settings failed."),
    };
    assert_eq!(get(&settings), val);

    // With It.
    let many = vec![
        Vec::new(),
        b"skel/assets/carl.jpg".to_vec(),
        flag.to_vec(),
        b"skel/assets/empty.jpg".to_vec(),
    ];
    let settings = match Settings::from_iter(many, 4) {
        Ok(line) => line.settings,
        Err(_) => panic!("Settings failed."),
    };
    assert_eq!(get(&settings), !val);
}

#[test]
fn t_settings_help() {
    run_version_help(b"-h", b"--help", PxsumError::PrintHelp);
}

#[test]
fn t_settings_version() {
    run_version_help(b"-V", b"--version", PxsumError::PrintVersion);
}

#[test]
fn t_settings_empty() {
    let line = match Settings::from_iter(Vec::new(), 4) {
        Ok(line) => line,
        Err(_) => panic!("Zero args failed."),
    };
    let (settings, paths) = line.settings.finish(line.paths, Vec::new());

    // Optionals should be off.
    assert!(!settings.check());
    assert!(!settings.group_by_checksum());
    assert!(!settings.only_dupes());
    assert!(!settings.print_time());
    assert!(!settings.strict());

    // The defaults.
    assert!(settings.print_valid());
    assert!(settings.print_warnings());
    assert_eq!(paths, &[b"-"]);
    assert_eq!(settings.threads(), 1);
}

#[test]
fn t_settings_flags() {
    toggle_flag(b"--bench", Settings::print_time, false);

    toggle_flag(b"-c", Settings::check, false);
    toggle_flag(b"--check", Settings::check, false);

    toggle_flag(b"-g", Settings::group_by_checksum, false);
    toggle_flag(b"--group-by-checksum", Settings::group_by_checksum, false);

    toggle_flag(b"--no-warnings", Settings::print_warnings, true);

    toggle_flag(b"-q", Settings::print_valid, true);
    toggle_flag(b"--quiet", Settings::print_valid, true);

    toggle_flag(b"--strict", Settings::strict, false);

    // This one toggles two different options.
    toggle_flag(b"--only-dupes", Settings::only_dupes, false);
    toggle_flag(b"--only-dupes", Settings::group_by_checksum, false);
}

#[test]
fn t_first_screen_wins() {
    assert_eq!(
        Settings::from_iter(args(&[b"-V", b"-h"]), 4).err(),
        Some(PxsumError::PrintVersion),
    );
    assert_eq!(
        Settings::from_iter(args(&[b"--help", b"--version"]), 4).err(),
        Some(PxsumError::PrintHelp),
    );
    // A value that is waited for is a value, whatever it says... unless it
    // is an option.
    assert_eq!(Settings::from_iter(args(&[b"-d", b"-h"]), 4).err(), Some(PxsumError::PrintHelp));
    // White space around an argument does not count.
    assert_eq!(Settings::from_iter(args(&[b"  --help\n"]), 4).err(), Some(PxsumError::PrintHelp));
    // Case does.
    assert!(Settings::from_iter(args(&[b"-H", b"-v", b"--HELP"]), 4).is_ok());
}

#[test]
fn t_paths_and_dirs() {
    let line = parse(&[b"b.png", b"-d", b"pics", b"a.txt", b"--dir", b"more", b"-dthird", b"--dir=fourth", b" c.jpg "]);
    assert_eq!(paths(&line), [&b"b.png"[..], b"a.txt", b"c.jpg"]);
    assert_eq!(dirs(&line), [&b"pics"[..], b"more", b"third", b"fourth"]);

    // A value may be given at once, with space before it.
    let line = parse(&[b"-d  x", b"--dir= y", b"--dir=", b"z", b"-d ", b"w"]);
    assert_eq!(dirs(&line), [&b"x"[..], b"y", b"z", b"w"]);
    assert!(paths(&line).is_empty());

    // An empty argument makes a waiting option give up.
    let line = parse(&[b"-d", b"", b"x.png", b"--dir", b"  ", b"y.png"]);
    assert!(dirs(&line).is_empty());
    assert_eq!(paths(&line), [&b"x.png"[..], b"y.png"]);

    // A switch does too.
    let line = parse(&[b"-d", b"--strict", b"x.png"]);
    assert!(dirs(&line).is_empty());
    assert_eq!(paths(&line), [&b"x.png"[..]]);
    assert!(line.settings.strict());

    // Two waiting options: the last one waits.
    let line = parse(&[b"-j", b"-d", b"3"]);
    assert_eq!(dirs(&line), [&b"3"[..]]);
    assert_eq!(line.settings.threads(), 8);

    // What looks like an option and is none is a path.
    let line = parse(&[b"--dirx", b"--", b"-", b"-x", b"--benchmark", b"---check"]);
    assert_eq!(paths(&line), [&b"--dirx"[..], b"--", b"-", b"-x", b"--benchmark", b"---check"]);
    // But whatever begins with -d is a directory.
    let line = parse(&[b"-debug"]);
    assert_eq!(dirs(&line), [&b"ebug"[..]]);

    // Bytes that are no text pass through.
    let line = parse(&[&[0xff, 0xfe, b'.', b'p', b'n', b'g']]);
    assert_eq!(paths(&line), [&[0xff, 0xfe, b'.', b'p', b'n', b'g'][..]]);
}

#[test]
fn t_threads_option() {
    assert_eq!(parse(&[]).settings.threads(), 8);
    assert_eq!(parse(&[b"-j", b"3"]).settings.threads(), 3);
    assert_eq!(parse(&[b"-j3"]).settings.threads(), 3);
    assert_eq!(parse(&[b"-j 3"]).settings.threads(), 3);
    assert_eq!(parse(&[b"-j", b" 3 "]).settings.threads(), 3);
    assert_eq!(parse(&[b"-j", b"8"]).settings.threads(), 8);
    assert_eq!(parse(&[b"-j", b"9"]).settings.threads(), 8);
    assert_eq!(parse(&[b"-j", b"-3"]).settings.threads(), 5);
    assert_eq!(parse(&[b"-j-3"]).settings.threads(), 5);
    assert_eq!(parse(&[b"-j", b"-7"]).settings.threads(), 1);
    assert_eq!(parse(&[b"-j", b"-8"]).settings.threads(), 1);
    assert_eq!(parse(&[b"-j", b"-800"]).settings.threads(), 1);
    assert_eq!(parse(&[b"-j", b"0"]).settings.threads(), 8);
    assert_eq!(parse(&[b"-j", b"-0"]).settings.threads(), 8);
    assert_eq!(parse(&[b"-j", b"two"]).settings.threads(), 8);
    assert_eq!(parse(&[b"-j", b"2", b"-j", b"4"]).settings.threads(), 2);
    assert_eq!(parse(&[b"-j", b"-2", b"-j", b"-2"]).settings.threads(), 4);
    // The value is not a path.
    assert!(paths(&parse(&[b"-j", b"3", b"a.png"])).len() == 1);
    // -j is given up like -d.
    let line = parse(&[b"-j", b"", b"3"]);
    assert_eq!(line.settings.threads(), 8);
    assert_eq!(paths(&line), [&b"3"[..]]);
    // No processor known is one processor.
    assert_eq!(Settings::from_iter(Vec::new(), 0).map(|l| l.settings.threads()), Ok(1));
}

#[test]
fn t_set_threads() {
    assert_eq!(threads_after(8, b"4"), 4);
    assert_eq!(threads_after(8, b"8"), 8);
    assert_eq!(threads_after(8, b"16"), 8);
    assert_eq!(threads_after(8, b"1"), 1);
    assert_eq!(threads_after(8, b"0"), 8);
    assert_eq!(threads_after(8, b"004"), 4);
    assert_eq!(threads_after(8, b" 4\t"), 4);
    assert_eq!(threads_after(8, b"-1"), 7);
    assert_eq!(threads_after(8, b"-7"), 1);
    assert_eq!(threads_after(8, b"-8"), 1);
    assert_eq!(threads_after(8, b"-9"), 1);
    assert_eq!(threads_after(8, b"-007"), 1);
    assert_eq!(threads_after(8, b" -2 "), 6);
    assert_eq!(threads_after(1, b"-1"), 1);
    for junk in [&b""[..], b"-", b"--2", b"+2", b"2.0", b"2 2", b"- 2", b"0x2", b"two", b"-0", b"\x0b2"] {
        assert_eq!(threads_after(8, junk), 8, "{junk:?}");
    }
    // A number too large for the machine is no number.
    assert_eq!(threads_after(8, b"99999999999999999999999999"), 8);
    assert_eq!(threads_after(8, b"-99999999999999999999999999"), 8);
    assert_eq!(threads_after(usize::MAX, b"18446744073709551615"), usize::MAX);
    assert_eq!(threads_after(usize::MAX, b"18446744073709551614"), 18446744073709551614);
}

#[test]
fn t_finish_crunch() {
    let line = parse(&[b"b.png", b"a.txt", b"a.JPG", b"b.png", b"-d", b"pics", b"dir/.png"]);
    let found = args(&[b"pics/z.webp", b"pics/notes.md", b"pics/a.gif", b"b.png"]);
    let (settings, paths) = line.settings.finish(line.paths, found);
    assert_eq!(paths, [&b"a.JPG"[..], b"b.png", b"pics/a.gif", b"pics/z.webp"]);
    assert_eq!(settings.threads(), 8);
    assert!(!settings.check());

    // Nothing that is an image: standard input, one worker.
    let line = parse(&[b"a.txt", b"--strict", b"-g"]);
    let (settings, paths) = line.settings.finish(line.paths, args(&[b"notes.md"]));
    assert_eq!(paths, [&b"-"[..]]);
    assert_eq!(settings.threads(), 1);
    assert!(settings.strict());
    assert!(settings.group_by_checksum());
}

#[test]
fn t_finish_check() {
    // Manifests are named as they like, and nothing is searched.
    let line = parse(&[b"-c", b"sums.txt", b"a.png", b"sums.txt", b"SUMS", b"-d", b"pics"]);
    assert_eq!(dirs(&line), [&b"pics"[..]]);
    let (settings, paths) = line.settings.finish(line.paths, args(&[b"pics/z.webp"]));
    assert_eq!(paths, [&b"SUMS"[..], b"a.png", b"sums.txt"]);
    assert!(settings.check());
    assert_eq!(settings.threads(), 8);

    let line = parse(&[b"--check"]);
    let (settings, paths) = line.settings.finish(line.paths, Vec::new());
    assert_eq!(paths, [&b"-"[..]]);
    assert_eq!(settings.threads(), 1);
}

#[test]
fn t_finish_order() {
    // Bytes decide, a prefix comes first.
    let line = parse(&[b"b.png", b"B.png", b"a/b.png", b"a.png", b"ab.png", b"a.png.png", b"\xc3\xa9.png", b"z.png"]);
    let (_, paths) = line.settings.finish(line.paths, Vec::new());
    assert_eq!(
        paths,
        [&b"B.png"[..], b"a.png", b"a.png.png", b"a/b.png", b"ab.png", b"b.png", b"z.png", b"\xc3\xa9.png"],
    );
}

#[test]
fn t_main() {
    let mut print_time = false;
    let line = match _main(&mut print_time, args(&[b"a.png"]), 2) {
        Ok(line) => line,
        Err(e) => panic!("{e:?}"),
    };
    assert!(!print_time);
    assert_eq!(paths(&line), [&b"a.png"[..]]);
    assert_eq!(line.settings.threads(), 2);

    assert!(_main(&mut print_time, args(&[b"--bench", b"-c", b"sums"]), 2).is_ok());
    assert!(print_time);
    // Once set it stays.
    assert!(_main(&mut print_time, args(&[b"a.png"]), 2).is_ok());
    assert!(print_time);

    // A screen is asked for before the time is noted.
    let mut print_time = false;
    assert_eq!(
        _main(&mut print_time, args(&[b"--bench", b"--help"]), 2).err(),
        Some(PxsumError::PrintHelp),
    );
    assert!(!print_time);
}
