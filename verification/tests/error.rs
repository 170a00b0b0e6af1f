use pxsum::PxsumError;

#[test]
fn t_exit_codes() {
    assert_eq!(PxsumError::PrintHelp.exit_code(), 0);
    assert_eq!(PxsumError::PrintVersion.exit_code(), 0);
    assert_eq!(PxsumError::Decode.exit_code(), 1);
    assert_eq!(PxsumError::JobServer.exit_code(), 1);
    assert_eq!(PxsumError::LineDecode.exit_code(), 1);
    assert_eq!(PxsumError::NoData.exit_code(), 1);
    assert_eq!(PxsumError::Path.exit_code(), 1);
    assert_eq!(PxsumError::Read.exit_code(), 1);
    assert_eq!(PxsumError::Stdin.exit_code(), 1);
    assert_eq!(PxsumError::Noop.exit_code(), 2);
    assert_eq!(PxsumError::NoDupes.exit_code(), 2);
    assert_eq!(PxsumError::Failed(1).exit_code(), 3);
    assert_eq!(PxsumError::Failed(u64::MAX).exit_code(), 3);
}

#[test]
fn t_messages() {
    assert_eq!(PxsumError::Decode.to_string(), "Decoding failed.");
    assert_eq!(PxsumError::JobServer.to_string(), "Job server choked!");
    assert_eq!(PxsumError::LineDecode.to_string(), "Invalid pxsum line.");
    assert_eq!(PxsumError::NoData.to_string(), "Empty input.");
    assert_eq!(PxsumError::NoDupes.to_string(), "No duplicate images were found.");
    assert_eq!(PxsumError::Noop.to_string(), "No pixel checksums were computed.");
    assert_eq!(PxsumError::Path.to_string(), "Path is invalid.");
    assert_eq!(PxsumError::Read.to_string(), "Unable to read source.");
    assert_eq!(PxsumError::Stdin.to_string(), "Unable to read STDIN.");
    assert_eq!(PxsumError::PrintVersion.to_string(), "pxsum");
    let help = PxsumError::PrintHelp.to_string();
    assert!(help.starts_with("USAGE:\n    pxsum [FLAGS] [OPTIONS] [FILE(S)]..."));
    for flag in [
        "--bench", "-c, --check", "-g, --group-by-checksum", "-h, --help", "--no-warnings",
        "--only-dupes", "-q, --quiet", "--strict", "-V, --version", "-d, --dir <DIR>", "-j <NUM>",
    ] {
        assert!(help.contains(flag), "{flag}");
    }
}

#[test]
fn t_failed_plural() {
    assert_eq!(PxsumError::Failed(1).to_string(), "1 computed checksum did NOT match");
    assert_eq!(PxsumError::Failed(2).to_string(), "2 computed checksums did NOT match");
    assert_eq!(PxsumError::Failed(10).to_string(), "10 computed checksums did NOT match");
    assert_eq!(PxsumError::Failed(11).to_string(), "11 computed checksums did NOT match");
    assert_eq!(PxsumError::Failed(101).to_string(), "101 computed checksums did NOT match");
    assert_eq!(
        PxsumError::Failed(u64::MAX).to_string(),
        "18446744073709551615 computed checksums did NOT match",
    );
}

#[test]
fn t_decimal() {
    for n in [0_u64, 1, 9, 10, 19, 99, 100, 1234567890, u64::MAX - 1, u64::MAX] {
        let mut s = String::from("n=");
        pxsum::error::push_decimal(&mut s, n);
        assert_eq!(s, format!("n={n}"));
    }
}
