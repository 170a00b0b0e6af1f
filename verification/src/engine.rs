//! What the engine decides: how many workers a run gets, what becomes of
//! each result, and how the run ends. Threads, channels and printing are
//! the caller's business; the decisions are made here.

use vstd::prelude::*;
use crate::args::Settings;
use crate::error::PxsumError;

verus! {

/// How many bytes are read of a source before its format is looked at.
pub const PRIME_LEN: u64 = 16;

/// The smaller of the worker count and the number of inputs, but one at
/// least.
pub open spec fn worker_count_spec(threads: usize, inputs: usize) -> usize {
    if inputs == 0 || threads == 0 {
        1
    } else if inputs < threads {
        inputs
    } else {
        threads
    }
}

/// How many workers a crunch run gets: no more than there are inputs, no
/// more than the settings allow, and one at least. The work queue holds as
/// many items as there are workers.
pub fn worker_count(settings: &Settings, inputs: usize) -> (r: usize)
    ensures
        r == worker_count_spec(settings.workers(), inputs),
        1 <= r <= settings.workers(),
        inputs >= 1 ==> r <= inputs,
{
    let threads: usize = settings.threads();
    if inputs == 0 {
        1
    } else if inputs < threads {
        inputs
    } else {
        threads
    }
}

/// What is done with a path that was crunched.
#[derive(Debug, Clone, Copy, PartialEq, Eq, Structural)]
pub enum CrunchAction {
    /// The line of the record is printed at once.
    Print,
    /// The record is kept for the grouped manifest.
    Collect,
    /// Nothing is done.
    Skip,
    /// A warning is printed.
    Warn,
}

/// What is done with a path that was crunched, by the result and the
/// settings.
pub open spec fn crunch_action_spec(
    result: Result<(), PxsumError>,
    group_by_checksum: bool,
    print_warnings: bool,
) -> CrunchAction {
    match result {
        Ok(()) => if group_by_checksum {
            CrunchAction::Collect
        } else {
            CrunchAction::Print
        },
        Err(PxsumError::Path) | Err(PxsumError::NoData) => CrunchAction::Skip,
        Err(_) => if print_warnings {
            CrunchAction::Warn
        } else {
            CrunchAction::Skip
        },
    }
}

/// What is done with a path that was crunched.
///
/// A checksum is printed, or kept where the results are grouped. A path
/// that is none, and a source without data, are passed over in silence.
/// Any other failure is warned of, unless warnings are off.
pub fn crunch_action(result: Result<(), PxsumError>, settings: &Settings) -> (r: CrunchAction)
    ensures
        r == crunch_action_spec(
            result,
            settings.flags().group_by_checksum,
            settings.flags().print_warnings,
        ),
{
    match result {
        Ok(()) => if settings.group_by_checksum() {
            CrunchAction::Collect
        } else {
            CrunchAction::Print
        },
        Err(PxsumError::Path) | Err(PxsumError::NoData) => CrunchAction::Skip,
        Err(_) => if settings.print_warnings() {
            CrunchAction::Warn
        } else {
            CrunchAction::Skip
        },
    }
}

/// How a crunch run that printed as it went ends: well if anything was
/// printed, else with [`PxsumError::Noop`].
pub fn crunch_exit(any: bool) -> (r: Result<(), PxsumError>)
    ensures
        any <==> r is Ok,
        !any <==> r == Err::<(), PxsumError>(PxsumError::Noop),
{
    if any {
        Ok(())
    } else {
        Err(PxsumError::Noop)
    }
}

/// What became of a manifest line.
#[derive(Debug, Clone, Copy, PartialEq, Eq, Structural)]
pub enum Outcome {
    /// The image has the hash that the line gives.
    Passed,
    /// The image has another hash.
    Failed,
    /// The source holds no data.
    FailedEmpty,
    /// There is no such file.
    FailedMissing,
    /// The file could not be read or decoded.
    FailedUnreadable,
    /// The line is malformed: it says nothing of any image.
    Malformed,
}

impl Outcome {
    /// Whether the outcome counts as a failed verification.
    pub open spec fn is_failure(self) -> bool {
        self == Outcome::Failed || self == Outcome::FailedEmpty || self == Outcome::FailedMissing
            || self == Outcome::FailedUnreadable
    }

    /// Whether the outcome counts as a failed verification: every outcome
    /// does but that the image passed or the line is malformed.
    pub fn counts(self) -> (r: bool)
        ensures
            r == self.is_failure(),
    {
        match self {
            Outcome::Passed | Outcome::Malformed => false,
            _ => true,
        }
    }

    /// What is printed after the path for this outcome, or nothing where
    /// nothing is printed.
    pub open spec fn label_spec(self) -> Seq<char> {
        match self {
            Outcome::Passed => ": OK"@,
            Outcome::Failed => ": FAILED"@,
            Outcome::FailedEmpty => ": FAILED (empty)"@,
            Outcome::FailedMissing => ": FAILED (missing)"@,
            Outcome::FailedUnreadable => ": FAILED (read/decode)"@,
            Outcome::Malformed => Seq::empty(),
        }
    }

    /// What is printed after the path for this outcome.
    pub fn label(self) -> (r: &'static str)
        ensures
            r@ == self.label_spec(),
    {
        match self {
            Outcome::Passed => ": OK",
            Outcome::Failed => ": FAILED",
            Outcome::FailedEmpty => ": FAILED (empty)",
            Outcome::FailedMissing => ": FAILED (missing)",
            Outcome::FailedUnreadable => ": FAILED (read/decode)",
            Outcome::Malformed => {
                let none: &'static str = "";
                proof {
                    reveal_strlit("");
                    assert(none@ =~= Seq::<char>::empty());
                }
                none
            },
        }
    }
}

/// What became of a manifest line, by the result of the verification.
/// `exists` tells whether the file that the line names is there; it counts
/// only where the verification failed to read or decode.
pub open spec fn outcome_spec(result: Result<bool, PxsumError>, exists: bool) -> Outcome {
    match result {
        Ok(true) => Outcome::Passed,
        Ok(false) => Outcome::Failed,
        Err(PxsumError::LineDecode) | Err(PxsumError::Path) => Outcome::Malformed,
        Err(PxsumError::NoData) => Outcome::FailedEmpty,
        Err(_) => if exists {
            Outcome::FailedUnreadable
        } else {
            Outcome::FailedMissing
        },
    }
}

/// What became of a manifest line.
pub fn outcome(result: Result<bool, PxsumError>, exists: bool) -> (r: Outcome)
    ensures
        r == outcome_spec(result, exists),
{
    match result {
        Ok(true) => Outcome::Passed,
        Ok(false) => Outcome::Failed,
        Err(PxsumError::LineDecode) | Err(PxsumError::Path) => Outcome::Malformed,
        Err(PxsumError::NoData) => Outcome::FailedEmpty,
        Err(_) => if exists {
            Outcome::FailedUnreadable
        } else {
            Outcome::FailedMissing
        },
    }
}

/// What is printed for an outcome: the path and the outcome's label, or
/// nothing where the line is malformed, or the image passed and those that
/// pass are not printed.
pub open spec fn report_spec(v: Outcome, path: Seq<char>, print_valid: bool) -> Option<
    Seq<char>,
> {
    if v == Outcome::Malformed || (v == Outcome::Passed && !print_valid) {
        None
    } else {
        Some(path + v.label_spec())
    }
}

/// The line that is printed for an outcome, if one is.
pub fn report(v: Outcome, path: &str, settings: &Settings) -> (r: Option<String>)
    ensures
        crate::iter::opt_text(r) == report_spec(v, path@, settings.flags().print_valid),
{
    match v {
        Outcome::Malformed => None,
        Outcome::Passed => if settings.print_valid() {
            Some(labelled(path, v))
        } else {
            None
        },
        _ => Some(labelled(path, v)),
    }
}

/// The path with the label of the outcome after it.
fn labelled(path: &str, v: Outcome) -> (r: String)
    ensures
        r@ == path@ + v.label_spec(),
{
    let mut line: String = String::from_str(path);
    line.append(v.label());
    line
}

/// Whether a malformed line is warned of: it is, unless warnings are off.
pub fn warns(v: Outcome, settings: &Settings) -> (r: bool)
    ensures
        r == (v == Outcome::Malformed && settings.flags().print_warnings),
{
    match v {
        Outcome::Malformed => settings.print_warnings(),
        _ => false,
    }
}

/// Whether a manifest is warned of as invalid: it is where not one line
/// came out of it, unless warnings are off.
pub fn manifest_is_invalid(lines: usize, settings: &Settings) -> (r: bool)
    ensures
        r == (lines == 0 && settings.flags().print_warnings),
{
    lines == 0 && settings.print_warnings()
}

/// How a verify run ends: well if nothing failed, else with the number of
/// failures.
pub fn verify_exit(failed: u64) -> (r: Result<(), PxsumError>)
    ensures
        failed == 0 <==> r is Ok,
        failed > 0 <==> r == Err::<(), PxsumError>(PxsumError::Failed(failed)),
        r matches Err(e) ==> e.wf(),
{
    if failed == 0 {
        Ok(())
    } else {
        Err(PxsumError::Failed(failed))
    }
}

/// What the size of a file says before it is read: a file without bytes
/// holds no data, and one of fewer than sixteen cannot be an image.
pub fn size_check(len: u64) -> (r: Result<(), PxsumError>)
    ensures
        len == 0 <==> r == Err::<(), PxsumError>(PxsumError::NoData),
        0 < len < PRIME_LEN <==> r == Err::<(), PxsumError>(PxsumError::Decode),
        len >= PRIME_LEN <==> r is Ok,
{
    if len == 0 {
        Err(PxsumError::NoData)
    } else if len < PRIME_LEN {
        Err(PxsumError::Decode)
    } else {
        Ok(())
    }
}

/// The guard of standard input: it can be claimed once.
pub struct StdinGuard {
    used: bool,
}

impl StdinGuard {
    /// Whether standard input was asked for already.
    pub closed spec fn used(&self) -> bool {
        self.used
    }

    /// A guard of standard input that nobody asked for yet.
    pub fn new() -> (r: Self)
        ensures
            !r.used(),
    {
        StdinGuard { used: false }
    }

    /// Asks for standard input. It is granted to the first who asks, and
    /// only if it is no terminal; whoever asks, nobody is granted it later.
    pub fn claim(&mut self, is_terminal: bool) -> (r: Result<(), PxsumError>)
        ensures
            final(self).used(),
            r is Ok <==> !old(self).used() && !is_terminal,
            r is Err ==> r == Err::<(), PxsumError>(PxsumError::Stdin),
    {
        let first: bool = !self.used;
        self.used = true;
        if first && !is_terminal {
            Ok(())
        } else {
            Err(PxsumError::Stdin)
        }
    }
}

} // verus!
