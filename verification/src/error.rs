//! The error taxonomy and its exit codes.

use vstd::prelude::*;

verus! {

/// Everything that can end an item or the whole run early.
///
/// Some variants are fatal to a single image only, some end the run, and
/// two (`PrintHelp`, `PrintVersion`) are not failures at all: they ask for
/// a screen to be printed in place of any work.
#[derive(Debug, Clone, Copy, PartialEq, Eq, Structural)]
pub enum PxsumError {
    /// The image could not be decoded.
    Decode,
    /// A job could not be handed to the workers.
    JobServer,
    /// A manifest line is malformed.
    LineDecode,
    /// The file or stream is empty.
    NoData,
    /// Nothing was checksummed.
    Noop,
    /// Nothing was checksummed twice (duplicates-only mode).
    NoDupes,
    /// The path is invalid.
    Path,
    /// The help screen was asked for.
    PrintHelp,
    /// The version was asked for.
    PrintVersion,
    /// The source could not be read.
    Read,
    /// Standard input was asked for twice, or is a terminal.
    Stdin,
    /// This many verifications failed (always at least one).
    Failed(u64),
}

impl PxsumError {
    /// The exit code that belongs to each error.
    pub open spec fn exit_code_spec(self) -> i32 {
        match self {
            PxsumError::PrintHelp | PxsumError::PrintVersion => 0,
            PxsumError::Noop | PxsumError::NoDupes => 2,
            PxsumError::Failed(_) => 3,
            _ => 1,
        }
    }

    /// Whether the error is one the library itself would build: a failure
    /// count is never zero.
    pub open spec fn wf(self) -> bool {
        self matches PxsumError::Failed(n) ==> n >= 1
    }

    /// The process exit code for this error: `0` for the help and version
    /// screens, `2` when nothing was printed, `3` when verifications failed,
    /// and `1` for everything else.
    pub fn exit_code(self) -> (code: i32)
        ensures
            code == self.exit_code_spec(),
            code == 0 <==> (self == PxsumError::PrintHelp || self == PxsumError::PrintVersion),
            code == 2 <==> (self == PxsumError::Noop || self == PxsumError::NoDupes),
            code == 3 <==> self is Failed,
            0 <= code <= 3,
    {
        match self {
            PxsumError::PrintHelp | PxsumError::PrintVersion => 0,
            PxsumError::Noop | PxsumError::NoDupes => 2,
            PxsumError::Failed(_) => 3,
            _ => 1,
        }
    }
}

/// The character of a decimal digit.
pub open spec fn digit_char(d: int) -> char {
    (0x30 + d) as char
}

/// A number written in base ten, without zeros in front.
pub open spec fn decimal(n: nat) -> Seq<char>
    decreases n,
{
    if n < 10 {
        seq![digit_char(n as int)]
    } else {
        decimal(n / 10).push(digit_char((n % 10) as int))
    }
}

/// Writes a number in base ten after what `out` holds.
pub fn push_decimal(out: &mut String, n: u64)
    ensures
        final(out)@ == old(out)@ + decimal(n as nat),
    decreases n,
{
    if n >= 10 {
        push_decimal(out, n / 10);
    }
    let d: u64 = n % 10;
    let c: char = if d == 0 {
        '0'
    } else if d == 1 {
        '1'
    } else if d == 2 {
        '2'
    } else if d == 3 {
        '3'
    } else if d == 4 {
        '4'
    } else if d == 5 {
        '5'
    } else if d == 6 {
        '6'
    } else if d == 7 {
        '7'
    } else if d == 8 {
        '8'
    } else {
        '9'
    };
    assert(c == digit_char(d as int));
    out.push(c);
    assert(out@ =~= old(out)@ + decimal(n as nat));
}

/// How the program is used.
pub const USAGE: &'static str = "USAGE:
    pxsum [FLAGS] [OPTIONS] [FILE(S)]...

FLAGS:
        --bench           Print the total execution time before exiting.
    -c, --check           Read existing pxsum/path pairs from FILE(S) and
                          check if they still ring true. This takes priority
                          over crunch-specific options, like -d/--dir.
    -g, --group-by-checksum
                          Crunch as usual, but group the results by checksum.
                          Note this will delay output until the end of the run.
    -h, --help            Print help information and exit.
        --no-warnings     Suppress warnings related to image decoding when
                          crunching anew, and malformed check manifest lines
                          when -c/--check.
        --only-dupes      Same as -g/--group-by-checksum, but only checksums
                          with two or more matching images will be printed.
    -q, --quiet           Suppress OK messages in -c/--check mode.
        --strict          Include color data from invisible pixels in checksum
                          calculations.
    -V, --version         Print version information and exit.

OPTIONS:
    -d, --dir <DIR>       Recursively search <DIR> for image files and pxsum
                          them (along with any other FILE(S)). Has no effect
                          when -c/--check.
    -j <NUM>              Limit parallelization to this many threads (instead
                          of giving each logical core its own image to work
                          on). If negative, the value will be subtracted from
                          the total number of logical cores.

ARGS:
    [FILE(S)]...          One or more image file paths to checksum, or if
                          -c/--check, one or more text file paths containing
                          pxsums to verify.

                          With no FILE(S) or -, input is read from STDIN.

FORMATS:
    Only image paths with valid file extensions for the following formats are
    supported: AVIF, BMP, GIF, ICO, JPEG, JPEG 2000, JPEG XL, PNG, TIFF, WebP

EXIT CODES:
    0: Business as usual!
    1: Something blew up!
    2: No checksum/path pairs were outputted.
    3: One or more images failed to re-verify.
";

/// The name of the program.
pub const NAME: &'static str = "pxsum";

impl PxsumError {
    /// What the user is told: for a failure what went wrong, with the
    /// number of failed verifications where that is the failure, for the
    /// help screen how the program is used, for the version its name.
    pub open spec fn message(self) -> Seq<char> {
        match self {
            PxsumError::Failed(n) => decimal(n as nat) + " computed checksum"@ + (if n == 1 {
                ""@
            } else {
                "s"@
            }) + " did NOT match"@,
            PxsumError::Decode => "Decoding failed."@,
            PxsumError::JobServer => "Job server choked!"@,
            PxsumError::LineDecode => "Invalid pxsum line."@,
            PxsumError::NoData => "Empty input."@,
            PxsumError::NoDupes => "No duplicate images were found."@,
            PxsumError::Noop => "No pixel checksums were computed."@,
            PxsumError::Path => "Path is invalid."@,
            PxsumError::PrintHelp => USAGE@,
            PxsumError::PrintVersion => NAME@,
            PxsumError::Read => "Unable to read source."@,
            PxsumError::Stdin => "Unable to read STDIN."@,
        }
    }

    /// What the user is told.
    pub fn to_string(&self) -> (r: String)
        ensures
            r@ == self.message(),
    {
        match self {
            PxsumError::Failed(n) => {
                let mut s: String = String::new();
                push_decimal(&mut s, *n);
                s.append(" computed checksum");
                if *n == 1 {
                    s.append("");
                } else {
                    s.append("s");
                }
                s.append(" did NOT match");
                s
            },
            PxsumError::Decode => String::from_str("Decoding failed."),
            PxsumError::JobServer => String::from_str("Job server choked!"),
            PxsumError::LineDecode => String::from_str("Invalid pxsum line."),
            PxsumError::NoData => String::from_str("Empty input."),
            PxsumError::NoDupes => String::from_str("No duplicate images were found."),
            PxsumError::Noop => String::from_str("No pixel checksums were computed."),
            PxsumError::Path => String::from_str("Path is invalid."),
            PxsumError::PrintHelp => String::from_str(USAGE),
            PxsumError::PrintVersion => String::from_str(NAME),
            PxsumError::Read => String::from_str("Unable to read source."),
            PxsumError::Stdin => String::from_str("Unable to read STDIN."),
        }
    }
}

} // verus!
