//! Command-line arguments: the settings of a run, and how they are read.

use vstd::prelude::*;
use dactyl::traits::BytesToUnsigned;
use std::num::NonZeroUsize;
use trimothy::TrimMut;
use crate::bytes::{
    ascii_end,
    ascii_start,
    begins_with,
    bytes_eq,
    bytes_lt,
    has_prefix,
    lemma_lt_total,
    lemma_lt_transitive,
    text_bytes,
    trim_ascii,
    trim_ascii_start,
};
use crate::error::PxsumError;
use crate::ext::{byte_codes, check_extension, has_image_extension};

verus! {

/// Whether every byte is an ASCII digit.
pub open spec fn is_digits(s: Seq<u8>) -> bool {
    forall|i: int| 0 <= i < s.len() ==> 0x30 <= #[trigger] s[i] <= 0x39
}

/// The number that ASCII digits spell in base ten; zeros in front do not
/// count.
pub open spec fn decimal_value(s: Seq<u8>) -> nat
    decreases s.len(),
{
    if s.len() == 0 {
        0
    } else {
        (decimal_value(s.drop_last()) * 10 + (s.last() - 0x30)) as nat
    }
}

/// The count that bytes spell: they must be digits, at least one, and
/// spell a number that is not zero and fits the machine.
pub open spec fn parsed_count(s: Seq<u8>) -> Option<usize> {
    if s.len() > 0 && is_digits(s) && 1 <= decimal_value(s) <= usize::MAX {
        Some(decimal_value(s) as usize)
    } else {
        None
    }
}

/// `dactyl`'s `btou` for `NonZeroUsize`: the number that the bytes spell in
/// base ten, if they are ASCII digits and nothing else, at least one, and
/// the number is neither zero nor too large for a `usize`.
#[verifier::external_body]
fn btou(src: &[u8]) -> (r: Option<usize>)
    ensures
        r == parsed_count(src@),
{
    match NonZeroUsize::btou(src) {
        Some(n) => Some(n.get()),
        None => None,
    }
}

/// `trimothy::TrimMut::trim_mut` on a `Vec<u8>`: the ASCII white space at
/// both ends is cut off, and nothing else is touched.
#[verifier::external_body]
fn trim_mut(arg: &mut Vec<u8>)
    ensures
        final(arg)@ == trim_ascii(old(arg)@),
{
    arg.trim_mut();
}

/// The worker count after a wish was heard.
///
/// The wish is read without the white space around it. `-N` takes `N`
/// workers away, but leaves one at least; `N` lowers the count to `N` and
/// never raises it; anything else changes nothing.
pub open spec fn threads_after(threads: usize, wanted: Seq<u8>) -> usize {
    let w = trim_ascii(wanted);
    if w.len() > 0 && w[0] == 0x2d && parsed_count(w.skip(1)) is Some {
        let t = parsed_count(w.skip(1)).unwrap();
        if threads > t {
            (threads - t) as usize
        } else {
            1
        }
    } else if parsed_count(w) is Some && parsed_count(w).unwrap() < threads {
        parsed_count(w).unwrap()
    } else {
        threads
    }
}

/// Changes the worker count to what is wished for, as far as that is
/// granted: a plain number lowers the count to that number, a number after
/// `-` is taken off the count, and the count never drops below one.
pub fn set_threads(threads: &mut usize, wanted: &[u8])
    ensures
        *final(threads) == threads_after(*old(threads), wanted@),
        *old(threads) >= 1 ==> *final(threads) >= 1,
{
    let end: usize = ascii_end(wanted);
    let head: &[u8] = vstd::slice::slice_subrange(wanted, 0, end);
    let start: usize = ascii_start(head);
    let w: &[u8] = vstd::slice::slice_subrange(head, start, end);
    assert(w@ == trim_ascii(wanted@)) by {
        assert(head@ =~= wanted@.take(end as int));
        assert(w@ =~= head@.skip(start as int));
    }
    if w.len() > 0 && w[0] == 0x2d {
        let digits: &[u8] = vstd::slice::slice_subrange(w, 1, w.len());
        assert(digits@ =~= w@.skip(1));
        match btou(digits) {
            Some(t) => {
                if *threads > t {
                    *threads = *threads - t;
                } else {
                    *threads = 1;
                }
                return ;
            },
            None => {},
        }
    }
    match btou(w) {
        Some(t) => {
            if t < *threads {
                *threads = t;
            }
        },
        None => {},
    }
}

/// The switches of a run.
#[derive(Debug, Clone, Copy, PartialEq, Eq, Structural)]
pub struct Flags {
    /// Verify manifests instead of making checksums.
    pub check: bool,
    /// Print the results grouped by checksum, at the end.
    pub group_by_checksum: bool,
    /// Print only the groups of two images and more.
    pub only_dupes: bool,
    /// Hash the colours of invisible pixels too.
    pub strict: bool,
    /// Print how long the run took.
    pub print_time: bool,
    /// Print the images that verify.
    pub print_valid: bool,
    /// Print warnings.
    pub print_warnings: bool,
}

impl Flags {
    /// The switches before any argument was read: nothing is set but the
    /// printing of verified images and of warnings.
    pub open spec fn start() -> Flags {
        Flags {
            check: false,
            group_by_checksum: false,
            only_dupes: false,
            strict: false,
            print_time: false,
            print_valid: true,
            print_warnings: true,
        }
    }

    /// Printing duplicates only is a way of grouping.
    pub open spec fn wf(self) -> bool {
        self.only_dupes ==> self.group_by_checksum
    }
}

/// The option that waits for its value.
#[derive(Debug, Clone, Copy, PartialEq, Eq, Structural)]
pub enum Pending {
    /// No option does.
    Nothing,
    /// A directory is expected.
    Dir,
    /// A worker count is expected.
    Threads,
}

/// The command line as far as it was read.
pub struct ArgState {
    /// The switches.
    pub flags: Flags,
    /// The worker count.
    pub threads: usize,
    /// The directories to search.
    pub dirs: Seq<Seq<u8>>,
    /// The paths.
    pub paths: Seq<Seq<u8>>,
    /// The option that waits for its value.
    pub pending: Pending,
}

impl ArgState {
    /// The state before any argument was read.
    pub open spec fn start(threads: usize) -> ArgState {
        ArgState {
            flags: Flags::start(),
            threads,
            dirs: Seq::empty(),
            paths: Seq::empty(),
            pending: Pending::Nothing,
        }
    }

    /// Whether the state can become settings.
    pub open spec fn wf(self) -> bool {
        self.flags.wf() && self.threads >= 1
    }
}

/// The bytes of an option's name.
pub open spec fn lit(name: &str) -> Seq<u8> {
    text_bytes(name@)
}

/// What follows the first `n` bytes of an argument, without the ASCII
/// white space it begins with.
pub open spec fn value_after(arg: Seq<u8>, n: nat) -> Seq<u8> {
    trim_ascii_start(arg.skip(n as int))
}

/// The state with a value for the directory option: the value is kept,
/// unless it is empty, in which case the option goes on waiting.
pub open spec fn with_dir(st: ArgState, value: Seq<u8>) -> ArgState {
    if value.len() == 0 {
        ArgState { pending: Pending::Dir, ..st }
    } else {
        ArgState { dirs: st.dirs.push(value), pending: Pending::Nothing, ..st }
    }
}

/// The state with a value for the worker option: the count is changed,
/// unless the value is empty, in which case the option goes on waiting.
pub open spec fn with_threads(st: ArgState, value: Seq<u8>) -> ArgState {
    if value.len() == 0 {
        ArgState { pending: Pending::Threads, ..st }
    } else {
        ArgState {
            threads: threads_after(st.threads, value),
            pending: Pending::Nothing,
            ..st
        }
    }
}

/// The state with other switches, and no option waiting.
pub open spec fn with_flags(st: ArgState, flags: Flags) -> ArgState {
    ArgState { flags, pending: Pending::Nothing, ..st }
}

/// What one argument does to the state, or the screen it asks for.
///
/// The argument is read without the ASCII white space around it. An empty
/// one only makes a waiting option give up. A switch is set. `-d`, `--dir`
/// and `-j` wait for their value, unless it follows at once (`-dDIR`,
/// `--dir=DIR`, `-jN`). `-h`, `--help`, `-V` and `--version` end the
/// reading. Anything else is the value that is waited for, or a path.
#[verifier::opaque]
pub open spec fn arg_step(st: ArgState, raw: Seq<u8>) -> Result<ArgState, PxsumError> {
    let arg = trim_ascii(raw);
    let f = st.flags;
    if arg.len() == 0 {
        Ok(ArgState { pending: Pending::Nothing, ..st })
    } else if arg == lit("--bench") {
        Ok(with_flags(st, Flags { print_time: true, ..f }))
    } else if arg == lit("-c") || arg == lit("--check") {
        Ok(with_flags(st, Flags { check: true, ..f }))
    } else if arg == lit("-g") || arg == lit("--group-by-checksum") {
        Ok(with_flags(st, Flags { group_by_checksum: true, ..f }))
    } else if arg == lit("--no-warnings") {
        Ok(with_flags(st, Flags { print_warnings: false, ..f }))
    } else if arg == lit("--only-dupes") {
        Ok(with_flags(st, Flags { only_dupes: true, group_by_checksum: true, ..f }))
    } else if arg == lit("-q") || arg == lit("--quiet") {
        Ok(with_flags(st, Flags { print_valid: false, ..f }))
    } else if arg == lit("--strict") {
        Ok(with_flags(st, Flags { strict: true, ..f }))
    } else if arg == lit("-d") || arg == lit("--dir") {
        Ok(ArgState { pending: Pending::Dir, ..st })
    } else if begins_with(arg, lit("-d")) {
        Ok(with_dir(st, value_after(arg, lit("-d").len())))
    } else if begins_with(arg, lit("--dir=")) {
        Ok(with_dir(st, value_after(arg, lit("--dir=").len())))
    } else if begins_with(arg, lit("-j")) {
        Ok(with_threads(st, value_after(arg, lit("-j").len())))
    } else if arg == lit("-h") || arg == lit("--help") {
        Err(PxsumError::PrintHelp)
    } else if arg == lit("-V") || arg == lit("--version") {
        Err(PxsumError::PrintVersion)
    } else {
        Ok(
            match st.pending {
                Pending::Dir => ArgState {
                    dirs: st.dirs.push(arg),
                    pending: Pending::Nothing,
                    ..st
                },
                Pending::Threads => ArgState {
                    threads: threads_after(st.threads, arg),
                    pending: Pending::Nothing,
                    ..st
                },
                Pending::Nothing => ArgState { paths: st.paths.push(arg), ..st },
            },
        )
    }
}

/// What a run of arguments does to the state: each is read in turn, and the
/// first that asks for a screen ends the reading.
pub open spec fn parse_args(st: ArgState, args: Seq<Seq<u8>>) -> Result<ArgState, PxsumError>
    decreases args.len(),
{
    if args.len() == 0 {
        Ok(st)
    } else {
        match arg_step(st, args[0]) {
            Ok(next) => parse_args(next, args.drop_first()),
            Err(e) => Err(e),
        }
    }
}

/// The contents of a run of byte strings.
pub open spec fn rows(v: Seq<Vec<u8>>) -> Seq<Seq<u8>> {
    Seq::new(v.len(), |i: int| v[i]@)
}

/// Reading an argument keeps a state well formed.
pub proof fn lemma_arg_step_wf(st: ArgState, raw: Seq<u8>)
    requires
        st.wf(),
    ensures
        arg_step(st, raw) matches Ok(next) ==> next.wf(),
{
    reveal(arg_step);
}

/// The command line while it is read.
struct Parser {
    flags: Flags,
    threads: usize,
    dirs: Vec<Vec<u8>>,
    paths: Vec<Vec<u8>>,
    pending: Pending,
}

impl Parser {
    /// What was read so far.
    spec fn state(&self) -> ArgState {
        ArgState {
            flags: self.flags,
            threads: self.threads,
            dirs: rows(self.dirs@),
            paths: rows(self.paths@),
            pending: self.pending,
        }
    }

    /// Keeps a directory, or goes on waiting for one where `value` is
    /// empty.
    fn dir(&mut self, value: Vec<u8>)
        ensures
            final(self).state() == with_dir(old(self).state(), value@),
    {
        if value.len() == 0 {
            self.pending = Pending::Dir;
        } else {
            let ghost before = rows(self.dirs@);
            self.dirs.push(value);
            self.pending = Pending::Nothing;
            assert(rows(self.dirs@) =~= before.push(value@));
        }
    }

    /// Hears a wish for the worker count, or goes on waiting for one where
    /// `value` is empty.
    fn workers(&mut self, value: &[u8])
        ensures
            final(self).state() == with_threads(old(self).state(), value@),
    {
        if value.len() == 0 {
            self.pending = Pending::Threads;
        } else {
            set_threads(&mut self.threads, value);
            self.pending = Pending::Nothing;
        }
    }

    /// Sets the switches, and lets no option wait.
    fn switch(&mut self, flags: Flags)
        ensures
            final(self).state() == with_flags(old(self).state(), flags),
    {
        self.flags = flags;
        self.pending = Pending::Nothing;
    }

    /// Reads one argument.
    fn step(&mut self, raw: Vec<u8>) -> (r: Result<(), PxsumError>)
        ensures
            match arg_step(old(self).state(), raw@) {
                Ok(next) => r is Ok && final(self).state() == next,
                Err(e) => r == Err::<(), PxsumError>(e),
            },
    {
        proof {
            reveal(arg_step);
        }
        let mut arg: Vec<u8> = raw;
        trim_mut(&mut arg);
        let a: &[u8] = arg.as_slice();
        let f: Flags = self.flags;
        if a.len() == 0 {
            self.pending = Pending::Nothing;
        } else if bytes_eq(a, "--bench".as_bytes()) {
            self.switch(Flags { print_time: true, ..f });
        } else if bytes_eq(a, "-c".as_bytes()) || bytes_eq(a, "--check".as_bytes()) {
            self.switch(Flags { check: true, ..f });
        } else if bytes_eq(a, "-g".as_bytes()) || bytes_eq(a, "--group-by-checksum".as_bytes()) {
            self.switch(Flags { group_by_checksum: true, ..f });
        } else if bytes_eq(a, "--no-warnings".as_bytes()) {
            self.switch(Flags { print_warnings: false, ..f });
        } else if bytes_eq(a, "--only-dupes".as_bytes()) {
            self.switch(Flags { only_dupes: true, group_by_checksum: true, ..f });
        } else if bytes_eq(a, "-q".as_bytes()) || bytes_eq(a, "--quiet".as_bytes()) {
            self.switch(Flags { print_valid: false, ..f });
        } else if bytes_eq(a, "--strict".as_bytes()) {
            self.switch(Flags { strict: true, ..f });
        } else if bytes_eq(a, "-d".as_bytes()) || bytes_eq(a, "--dir".as_bytes()) {
            self.pending = Pending::Dir;
        } else if has_prefix(a, "-d".as_bytes()) {
            let value: Vec<u8> = value_of(a, "-d".as_bytes().len());
            self.dir(value);
        } else if has_prefix(a, "--dir=".as_bytes()) {
            let value: Vec<u8> = value_of(a, "--dir=".as_bytes().len());
            self.dir(value);
        } else if has_prefix(a, "-j".as_bytes()) {
            let value: Vec<u8> = value_of(a, "-j".as_bytes().len());
            self.workers(value.as_slice());
        } else if bytes_eq(a, "-h".as_bytes()) || bytes_eq(a, "--help".as_bytes()) {
            return Err(PxsumError::PrintHelp);
        } else if bytes_eq(a, "-V".as_bytes()) || bytes_eq(a, "--version".as_bytes()) {
            return Err(PxsumError::PrintVersion);
        } else {
            match self.pending {
                Pending::Dir => {
                    let ghost before = rows(self.dirs@);
                    self.dirs.push(arg);
                    assert(rows(self.dirs@) =~= before.push(arg@));
                },
                Pending::Threads => {
                    set_threads(&mut self.threads, a);
                },
                Pending::Nothing => {
                    let ghost before = rows(self.paths@);
                    self.paths.push(arg);
                    assert(rows(self.paths@) =~= before.push(arg@));
                },
            }
            self.pending = Pending::Nothing;
        }
        Ok(())
    }
}

/// What follows the first `n` bytes of an argument, without the ASCII white
/// space it begins with.
fn value_of(arg: &[u8], n: usize) -> (v: Vec<u8>)
    requires
        n <= arg@.len(),
    ensures
        v@ == value_after(arg@, n as nat),
{
    let rest: &[u8] = vstd::slice::slice_subrange(arg, n, arg.len());
    assert(rest@ =~= arg@.skip(n as int));
    let start: usize = ascii_start(rest);
    let value: &[u8] = vstd::slice::slice_subrange(rest, start, rest.len());
    assert(value@ =~= rest@.skip(start as int));
    vstd::slice::slice_to_vec(value)
}

/// The settings of a run: the switches, and how many workers there may be.
#[derive(Debug, Clone, Copy)]
pub struct Settings {
    flags: Flags,
    threads: usize,
}

/// What the command line comes to: the settings, the paths, and the
/// directories to search.
pub struct CommandLine {
    /// The settings.
    pub settings: Settings,
    /// The paths, as they were given.
    pub paths: Vec<Vec<u8>>,
    /// The directories to search for more paths.
    pub dirs: Vec<Vec<u8>>,
}

impl CommandLine {
    /// Whether the command line holds what the state says.
    pub open spec fn holds(&self, st: ArgState) -> bool {
        &&& self.settings.flags() == st.flags
        &&& self.settings.workers() == st.threads
        &&& rows(self.paths@) == st.paths
        &&& rows(self.dirs@) == st.dirs
    }
}

/// A count of processors, taken for one where none is known.
pub open spec fn at_least_one(cores: usize) -> usize {
    if cores == 0 {
        1
    } else {
        cores
    }
}

impl Settings {
    /// The switches.
    pub closed spec fn flags(&self) -> Flags {
        self.flags
    }

    /// The worker count.
    pub closed spec fn workers(&self) -> usize {
        self.threads
    }

    /// There is always one worker at least, and printing duplicates only is
    /// a way of grouping.
    #[verifier::type_invariant]
    closed spec fn wf(&self) -> bool {
        self.flags.wf() && self.threads >= 1
    }

    /// Reads the arguments of a command line, the name of the program left
    /// out. `cores` is the number of processors, which is the worker count
    /// unless an argument lowers it.
    ///
    /// Fails with [`PxsumError::PrintHelp`] or [`PxsumError::PrintVersion`]
    /// at the first argument that asks for one of them.
    pub fn from_iter(raw: Vec<Vec<u8>>, cores: usize) -> (r: Result<CommandLine, PxsumError>)
        ensures
            match parse_args(ArgState::start(at_least_one(cores)), rows(raw@)) {
                Ok(st) => r matches Ok(line) && line.holds(st),
                Err(e) => r matches Err(f) && f == e,
            },
    {
        let mut parser = Parser {
            flags: Flags {
                check: false,
                group_by_checksum: false,
                only_dupes: false,
                strict: false,
                print_time: false,
                print_valid: true,
                print_warnings: true,
            },
            threads: if cores == 0 {
                1
            } else {
                cores
            },
            dirs: Vec::new(),
            paths: Vec::new(),
            pending: Pending::Nothing,
        };
        let ghost start = ArgState::start(at_least_one(cores));
        let ghost all = rows(raw@);
        assert(parser.state().dirs =~= start.dirs);
        assert(parser.state().paths =~= start.paths);
        assert(all.skip(0) =~= all);
        for arg in it: raw
            invariant
                it.seq() == raw@,
                all == rows(raw@),
                start == ArgState::start(at_least_one(cores)),
                parser.state().wf(),
                parse_args(start, all) == parse_args(parser.state(), all.skip(it.index() as int)),
        {
            let ghost before = parser.state();
            let ghost i = it.index() as int;
            proof {
                assert(all.skip(i)[0] == arg@);
                assert(all.skip(i).drop_first() =~= all.skip(i + 1));
                lemma_arg_step_wf(before, arg@);
            }
            match parser.step(arg) {
                Ok(()) => {},
                Err(e) => {
                    return Err(e);
                },
            }
        }
        Ok(
            CommandLine {
                settings: Settings { flags: parser.flags, threads: parser.threads },
                paths: parser.paths,
                dirs: parser.dirs,
            },
        )
    }

    /// Whether manifests are verified instead of checksums made.
    pub fn check(&self) -> (r: bool)
        ensures
            r == self.flags().check,
    {
        self.flags.check
    }

    /// Whether the results are printed grouped by checksum.
    pub fn group_by_checksum(&self) -> (r: bool)
        ensures
            r == self.flags().group_by_checksum,
    {
        self.flags.group_by_checksum
    }

    /// Whether only the groups of two images and more are printed.
    pub fn only_dupes(&self) -> (r: bool)
        ensures
            r == self.flags().only_dupes,
            r ==> self.flags().group_by_checksum,
    {
        proof {
            use_type_invariant(self);
        }
        self.flags.only_dupes
    }

    /// Whether the colours of invisible pixels are hashed too.
    pub fn strict(&self) -> (r: bool)
        ensures
            r == self.flags().strict,
    {
        self.flags.strict
    }

    /// Whether the time the run took is printed.
    pub fn print_time(&self) -> (r: bool)
        ensures
            r == self.flags().print_time,
    {
        self.flags.print_time
    }

    /// Whether the images that verify are printed.
    pub fn print_valid(&self) -> (r: bool)
        ensures
            r == self.flags().print_valid,
    {
        self.flags.print_valid
    }

    /// Whether warnings are printed.
    pub fn print_warnings(&self) -> (r: bool)
        ensures
            r == self.flags().print_warnings,
    {
        self.flags.print_warnings
    }

    /// How many workers there may be: one at least.
    pub fn threads(&self) -> (r: usize)
        ensures
            r == self.workers(),
            r >= 1,
    {
        proof {
            use_type_invariant(self);
        }
        self.threads
    }
}

/// Whether the byte strings stand in order, equal ones side by side.
pub open spec fn in_order(v: Seq<Seq<u8>>) -> bool {
    forall|i: int, j: int| 0 <= i < j < v.len() ==> !bytes_lt(#[trigger] v[j], #[trigger] v[i])
}

/// Whether the byte strings stand in order and no two are equal.
pub open spec fn strictly_in_order(v: Seq<Seq<u8>>) -> bool {
    forall|i: int, j: int| 0 <= i < j < v.len() ==> bytes_lt(#[trigger] v[i], #[trigger] v[j])
}

/// Whether a path, given as bytes, is named like an image.
pub open spec fn is_image_path(p: Seq<u8>) -> bool {
    has_image_extension(byte_codes(p))
}

/// The paths that are named like an image, in the order they have.
pub open spec fn images_of(v: Seq<Seq<u8>>) -> Seq<Seq<u8>>
    decreases v.len(),
{
    if v.len() == 0 {
        Seq::empty()
    } else if is_image_path(v.last()) {
        images_of(v.drop_last()).push(v.last())
    } else {
        images_of(v.drop_last())
    }
}

/// The paths that a run is to work on: when verifying, the paths that were
/// given, which name manifests; else the paths that were given and those
/// that were found, as far as they are named like an image.
pub open spec fn candidates(check: bool, paths: Seq<Seq<u8>>, found: Seq<Seq<u8>>) -> Seq<
    Seq<u8>,
> {
    if check {
        paths
    } else {
        images_of(paths) + images_of(found)
    }
}

/// `sort_unstable` on a slice of byte strings: afterwards they stand in
/// order, and they are the ones that were there, each as often as before.
#[verifier::external_body]
fn sort_unstable(paths: &mut Vec<Vec<u8>>)
    ensures
        in_order(rows(final(paths)@)),
        rows(final(paths)@).to_multiset() == rows(old(paths)@).to_multiset(),
{
    paths.sort_unstable();
}

/// Adds to `keep` the paths of `more` that are named like an image.
fn keep_images(keep: &mut Vec<Vec<u8>>, more: Vec<Vec<u8>>)
    ensures
        rows(final(keep)@) == rows(old(keep)@) + images_of(rows(more@)),
{
    let ghost start = rows(keep@);
    let ghost all = rows(more@);
    assert(all.take(0) =~= Seq::<Seq<u8>>::empty());
    assert(start + images_of(all.take(0)) =~= start);
    for p in it: more
        invariant
            it.seq() == more@,
            all == rows(more@),
            start == rows(old(keep)@),
            rows(keep@) == start + images_of(all.take(it.index() as int)),
    {
        let ghost i = it.index() as int;
        let ghost before = rows(keep@);
        proof {
            assert(all.take(i + 1).drop_last() =~= all.take(i));
            assert(all.take(i + 1).last() == p@);
        }
        if check_extension(p.as_slice()) {
            keep.push(p);
            assert(rows(keep@) =~= before.push(p@));
            assert(before.push(p@) =~= start + images_of(all.take(i + 1)));
        }
    }
    assert(all.take(all.len() as int) =~= all);
}

/// Drops every path that is the same as the one before it.
fn dedup(paths: Vec<Vec<u8>>) -> (out: Vec<Vec<u8>>)
    requires
        in_order(rows(paths@)),
    ensures
        strictly_in_order(rows(out@)),
        rows(out@).to_set() == rows(paths@).to_set(),
{
    let mut out: Vec<Vec<u8>> = Vec::new();
    let ghost all = rows(paths@);
    assert(all.take(0) =~= Seq::<Seq<u8>>::empty());
    assert(rows(out@) =~= Seq::<Seq<u8>>::empty());
    for p in it: paths
        invariant
            it.seq() == paths@,
            all == rows(paths@),
            in_order(all),
            strictly_in_order(rows(out@)),
            rows(out@).to_set() == all.take(it.index() as int).to_set(),
            out@.len() > 0 ==> it.index() > 0 && out@.last()@ == all[it.index() - 1],
            out@.len() == 0 ==> it.index() == 0,
    {
        let ghost i = it.index() as int;
        let ghost before = rows(out@);
        let ghost seen = all.take(i);
        proof {
            assert(all.take(i + 1) =~= seen.push(p@));
            seen.lemma_push_to_set_commute(p@);
            assert(all[i] == p@);
        }
        let n: usize = out.len();
        if n == 0 || !bytes_eq(out[n - 1].as_slice(), p.as_slice()) {
            proof {
                if n > 0 {
                    let last = before[n - 1];
                    assert(last == all[i - 1]);
                    assert(!bytes_lt(all[i], all[i - 1]));
                    lemma_lt_total(last, p@);
                    assert forall|k: int| 0 <= k < n implies bytes_lt(
                        #[trigger] before[k],
                        p@,
                    ) by {
                        if k < n - 1 {
                            assert(bytes_lt(before[k], before[n - 1]));
                            lemma_lt_transitive(before[k], last, p@);
                        }
                    }
                }
                before.lemma_push_to_set_commute(p@);
            }
            out.push(p);
            assert(rows(out@) =~= before.push(p@));
        } else {
            proof {
                assert(before[n - 1] == p@);
                assert(before.contains(p@));
                assert(before.to_set().insert(p@) =~= before.to_set());
            }
        }
    }
    assert(all.take(all.len() as int) =~= all);
    out
}

impl Settings {
    /// Settles which paths the run works on, once the directories were
    /// searched: `found` holds what was found there.
    ///
    /// When verifying, the paths stay as given and `found` is left out;
    /// else only what is named like an image is kept, of both. Where no
    /// path is left, the run reads standard input (`-`) with one worker;
    /// else the paths are put in order, each only once.
    pub fn finish(self, paths: Vec<Vec<u8>>, found: Vec<Vec<u8>>) -> (r: (Settings, Vec<Vec<u8>>))
        ensures
            r.0.flags() == self.flags(),
            ({
                let wanted = candidates(self.flags().check, rows(paths@), rows(found@));
                if wanted.len() == 0 {
                    &&& r.0.workers() == 1
                    &&& rows(r.1@) == seq![lit("-")]
                } else {
                    &&& r.0.workers() == self.workers()
                    &&& strictly_in_order(rows(r.1@))
                    &&& rows(r.1@).to_set() == wanted.to_set()
                }
            }),
    {
        proof {
            use_type_invariant(&self);
        }
        let ghost wanted = candidates(self.flags().check, rows(paths@), rows(found@));
        let mut all: Vec<Vec<u8>>;
        if self.flags.check {
            all = paths;
        } else {
            all = Vec::new();
            assert(rows(all@) =~= Seq::<Seq<u8>>::empty());
            keep_images(&mut all, paths);
            keep_images(&mut all, found);
            assert(rows(all@) =~= wanted);
        }
        if all.len() == 0 {
            let dash: Vec<u8> = vstd::slice::slice_to_vec("-".as_bytes());
            all.push(dash);
            assert(rows(all@) =~= seq![lit("-")]);
            (Settings { flags: self.flags, threads: 1 }, all)
        } else {
            let ghost before = rows(all@);
            sort_unstable(&mut all);
            let out: Vec<Vec<u8>> = dedup(all);
            proof {
                let sorted = rows(all@);
                assert forall|x: Seq<u8>| sorted.to_set().contains(x) == before.to_set().contains(
                    x,
                ) by {
                    sorted.to_multiset_ensures();
                    before.to_multiset_ensures();
                    assert(sorted.contains(x) <==> sorted.to_multiset().count(x) > 0);
                    assert(before.contains(x) <==> before.to_multiset().count(x) > 0);
                }
                assert(sorted.to_set() =~= before.to_set());
            }
            (self, out)
        }
    }
}

/// Reads the command line and notes whether the time is to be printed at
/// the end: `print_time` is set where the arguments ask for it, and left as
/// it is where they do not, or where they ask for a screen.
pub fn _main(print_time: &mut bool, raw: Vec<Vec<u8>>, cores: usize) -> (r: Result<
    CommandLine,
    PxsumError,
>)
    ensures
        match parse_args(ArgState::start(at_least_one(cores)), rows(raw@)) {
            Ok(st) => {
                &&& r matches Ok(line) && line.holds(st)
                &&& *final(print_time) == (*old(print_time) || st.flags.print_time)
            },
            Err(e) => {
                &&& r matches Err(f) && f == e
                &&& *final(print_time) == *old(print_time)
            },
        },
{
    let line: CommandLine = Settings::from_iter(raw, cores)?;
    if line.settings.print_time() {
        *print_time = true;
    }
    Ok(line)
}

} // verus!
