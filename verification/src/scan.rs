//! The directory scanner: which files of the current tree have to be
//! compared with their copy in the baseline tree.
//!
//! The scanner reads no directory itself. Its caller walks the current
//! tree, looks up each entry in the baseline tree and reports what it saw;
//! the scanner decides what follows and keeps the files it has found.

use vstd::prelude::*;

verus! {

/// The kind of a directory entry. Everything that is no directory counts
/// as a file.
#[derive(Debug, Clone, Copy, PartialEq, Eq, Structural)]
pub enum FileTypeEnum {
    Dir,
    File,
}

impl FileTypeEnum {
    /// The kind of an entry, from whether it is a directory.
    pub fn from_is_dir(is_dir: bool) -> (kind: Self)
        ensures
            kind == if is_dir {
                FileTypeEnum::Dir
            } else {
                FileTypeEnum::File
            },
    {
        if is_dir {
            FileTypeEnum::Dir
        } else {
            FileTypeEnum::File
        }
    }
}

/// What looking up an entry's path in the baseline tree gave.
#[derive(Debug, Clone, Copy, PartialEq, Eq, Structural)]
pub enum BaselineProbe {
    /// There is an entry of this kind at the path.
    Found(FileTypeEnum),
    /// There is nothing at the path.
    NotFound,
    /// The lookup failed for another reason.
    Failed,
}

/// A modification time: seconds and nanoseconds since a fixed point in
/// time, with less than a second's worth of nanoseconds.
#[derive(Debug, Clone, Copy, PartialEq, Eq, Structural)]
pub struct Timestamp {
    pub seconds: i64,
    pub nanoseconds: u32,
}

impl Timestamp {
    /// The time in nanoseconds since the fixed point.
    pub open spec fn instant(&self) -> int {
        self.seconds * 1_000_000_000 + self.nanoseconds
    }

    /// Whether the nanoseconds are less than a second.
    pub open spec fn well_formed(&self) -> bool {
        self.nanoseconds < 1_000_000_000
    }

    /// The time that lies `seconds` seconds and `nanoseconds` nanoseconds
    /// after the fixed point. `None` where the seconds do not fit, or the
    /// nanoseconds make a second or more.
    pub fn after_epoch(seconds: u64, nanoseconds: u32) -> (time: Option<Timestamp>)
        ensures
            time is Some <==> seconds <= i64::MAX && nanoseconds < 1_000_000_000,
            time matches Some(t) ==> t.well_formed() && t.instant() == seconds * 1_000_000_000
                + nanoseconds,
    {
        if seconds <= 9223372036854775807 && nanoseconds < 1_000_000_000 {
            Some(Timestamp { seconds: seconds as i64, nanoseconds })
        } else {
            None
        }
    }

    /// The time that lies `seconds` seconds and `nanoseconds` nanoseconds
    /// before the fixed point. `None` where the seconds do not fit, or the
    /// nanoseconds make a second or more.
    pub fn before_epoch(seconds: u64, nanoseconds: u32) -> (time: Option<Timestamp>)
        ensures
            time is Some <==> seconds < i64::MAX && nanoseconds < 1_000_000_000,
            time matches Some(t) ==> t.well_formed() && t.instant() == -(seconds * 1_000_000_000
                + nanoseconds),
    {
        if seconds < 9223372036854775807 && nanoseconds < 1_000_000_000 {
            if nanoseconds == 0 {
                Some(Timestamp { seconds: -(seconds as i64), nanoseconds: 0 })
            } else {
                Some(
                    Timestamp {
                        seconds: -(seconds as i64) - 1,
                        nanoseconds: 1_000_000_000 - nanoseconds,
                    },
                )
            }
        } else {
            None
        }
    }

    /// Whether this time is strictly later than `other`.
    pub open spec fn later_than(&self, other: &Timestamp) -> bool {
        self.seconds > other.seconds || (self.seconds == other.seconds && self.nanoseconds
            > other.nanoseconds)
    }

    /// Whether this time is strictly later than `other`.
    pub fn is_later_than(&self, other: &Timestamp) -> (later: bool)
        ensures
            later == self.later_than(other),
    {
        self.seconds > other.seconds || (self.seconds == other.seconds && self.nanoseconds
            > other.nanoseconds)
    }
}

/// What the caller has to do after it has reported an entry. The paths are
/// those it reported, handed back for the next step.
#[derive(Debug)]
pub enum ScanAction<P> {
    /// Nothing: go on to the next entry.
    Next,
    /// Read the modification times of the current file and of its
    /// baseline, and report them with `compare_times`.
    CompareTimes(P, P),
    /// Scan the current directory against the baseline directory, whether
    /// or not the latter exists.
    Recurse(P, P),
    /// Give up the whole scan with the error of the lookup.
    Abort,
}

/// What the scanner decides for an entry of kind `kind` whose baseline
/// lookup gave `baseline`, and whether it notes the entry as changed.
///
/// A file without a baseline is new and is noted. So is a file whose
/// baseline path holds a directory. A file whose baseline is a file is
/// noted later, if it proves newer. A directory is scanned in turn, even
/// where the baseline has nothing or a file in its place. A lookup that
/// failed, for another reason than that nothing was found, ends the scan.
pub open spec fn decision(kind: FileTypeEnum, baseline: BaselineProbe) -> (ScanStep, bool) {
    match (kind, baseline) {
        (FileTypeEnum::File, BaselineProbe::Found(FileTypeEnum::File)) => (
            ScanStep::CompareTimes,
            false,
        ),
        (FileTypeEnum::File, BaselineProbe::Found(FileTypeEnum::Dir)) => (ScanStep::Next, true),
        (FileTypeEnum::File, BaselineProbe::NotFound) => (ScanStep::Next, true),
        (FileTypeEnum::Dir, BaselineProbe::Found(_)) => (ScanStep::Recurse, false),
        (FileTypeEnum::Dir, BaselineProbe::NotFound) => (ScanStep::Recurse, false),
        (_, BaselineProbe::Failed) => (ScanStep::Abort, false),
    }
}

/// The kinds of [`ScanAction`], without the paths.
#[derive(Debug, Clone, Copy, PartialEq, Eq, Structural)]
pub enum ScanStep {
    Next,
    CompareTimes,
    Recurse,
    Abort,
}

impl<P> ScanAction<P> {
    /// The kind of the action.
    pub open spec fn step(&self) -> ScanStep {
        match *self {
            ScanAction::Next => ScanStep::Next,
            ScanAction::CompareTimes(_, _) => ScanStep::CompareTimes,
            ScanAction::Recurse(_, _) => ScanStep::Recurse,
            ScanAction::Abort => ScanStep::Abort,
        }
    }

    /// The paths that the action hands back, if it hands any back.
    pub open spec fn paths(&self) -> Option<(P, P)> {
        match *self {
            ScanAction::CompareTimes(current, baseline) => Some((current, baseline)),
            ScanAction::Recurse(current, baseline) => Some((current, baseline)),
            _ => None,
        }
    }
}

/// The files that a scan has found so far, each with the path of its
/// baseline, in the order in which they were found. The baseline need not
/// exist.
pub struct FoundFiles<P> {
    pairs: Vec<(P, P)>,
}

impl<P> View for FoundFiles<P> {
    type V = Seq<(P, P)>;

    closed spec fn view(&self) -> Seq<(P, P)> {
        self.pairs@
    }
}

impl<P> FoundFiles<P> {
    /// A scan that has found nothing yet.
    pub fn new() -> (found: Self)
        ensures
            found@ == Seq::<(P, P)>::empty(),
    {
        FoundFiles { pairs: Vec::new() }
    }

    /// Takes the report of one entry of the current tree: its kind, what
    /// the lookup of its baseline path gave, and the two paths. Notes the
    /// entry where it is known to have changed, and says what to do next.
    pub fn observe(&mut self, kind: FileTypeEnum, probe: BaselineProbe, current: P, baseline: P) -> (action:
        ScanAction<P>)
        ensures
            action.step() == decision(kind, probe).0,
            action.paths() matches Some(paths) ==> paths == (current, baseline),
            final(self)@ == if decision(kind, probe).1 {
                old(self)@.push((current, baseline))
            } else {
                old(self)@
            },
    {
        match (kind, probe) {
            (FileTypeEnum::File, BaselineProbe::Found(FileTypeEnum::File)) => {
                ScanAction::CompareTimes(current, baseline)
            },
            (FileTypeEnum::File, BaselineProbe::Found(FileTypeEnum::Dir)) => {
                self.pairs.push((current, baseline));
                ScanAction::Next
            },
            (FileTypeEnum::File, BaselineProbe::NotFound) => {
                self.pairs.push((current, baseline));
                ScanAction::Next
            },
            (FileTypeEnum::Dir, BaselineProbe::Found(_)) => ScanAction::Recurse(current, baseline),
            (FileTypeEnum::Dir, BaselineProbe::NotFound) => ScanAction::Recurse(current, baseline),
            (_, BaselineProbe::Failed) => ScanAction::Abort,
        }
    }

    /// Takes the modification times of a file and of its baseline file,
    /// and notes the file if it is strictly newer than its baseline.
    pub fn compare_times(
        &mut self,
        current_time: Timestamp,
        baseline_time: Timestamp,
        current: P,
        baseline: P,
    )
        ensures
            final(self)@ == if current_time.later_than(&baseline_time) {
                old(self)@.push((current, baseline))
            } else {
                old(self)@
            },
    {
        if current_time.is_later_than(&baseline_time) {
            self.pairs.push((current, baseline));
        }
    }

    /// Ends the scan and hands out what was found.
    pub fn finish(self) -> (pairs: Vec<(P, P)>)
        ensures
            pairs@ == self@,
    {
        self.pairs
    }
}

/// Of two times with less than a second's worth of nanoseconds, one is
/// later than the other exactly when it lies more nanoseconds after the
/// fixed point.
pub proof fn lemma_later_is_later(a: Timestamp, b: Timestamp)
    requires
        a.well_formed(),
        b.well_formed(),
    ensures
        a.later_than(&b) <==> a.instant() > b.instant(),
{
}

/// A file is not found twice: once it is no older than its baseline, as
/// it is after it was copied over the baseline, the scan notes nothing
/// for it.
pub proof fn lemma_promoted_file_is_skipped(current_time: Timestamp, baseline_time: Timestamp)
    requires
        current_time.well_formed(),
        baseline_time.well_formed(),
        current_time.instant() <= baseline_time.instant(),
    ensures
        decision(FileTypeEnum::File, BaselineProbe::Found(FileTypeEnum::File)) == (
            ScanStep::CompareTimes,
            false,
        ),
        !current_time.later_than(&baseline_time),
{
}

} // verus!
