//! The decisions of the loop that keeps reading the bacon locations file and
//! opening new warning locations.
//!
//! One round of the loop reads the bacon locations file, looks at the first
//! listed location, reads the file it names when the location is new, opens
//! the editor on it when its line exists, and waits until the editor tab is
//! closed. The program performs each action the monitor asks for and hands
//! back what came of it; the monitor decides what comes next.

use vstd::prelude::*;
use crate::line_ref::{
    check_line_ref, parse_line_ref, spec_check_line_ref, spec_line_at, spec_parse_line_ref, LineRef,
    LineRefError, LinesOfConcern,
};
use crate::text::views;

verus! {

/// How long the monitor pauses after each round: 2 seconds.
pub const MONITOR_PAUSE_SECS: u64 = 2;

/// How much longer it pauses after a round that found no location listed:
/// 2 seconds.
pub const NO_WARNINGS_PAUSE_SECS: u64 = 2;

/// Where the monitor is within a round.
pub enum Phase {
    /// Waiting for the text of the bacon locations file.
    Idle,
    /// Waiting for the text of the file that the new target names.
    AwaitingFile(String, LineRef),
    /// The editor shows the target; waiting until its tab is closed.
    Editing(String),
}

/// `Phase` with its strings taken by their text.
pub enum PhaseView {
    Idle,
    AwaitingFile(Seq<char>, Seq<char>, usize),
    Editing(Seq<char>),
}

impl View for Phase {
    type V = PhaseView;

    open spec fn view(&self) -> PhaseView {
        match self {
            Phase::Idle => PhaseView::Idle,
            Phase::AwaitingFile(t, lr) => PhaseView::AwaitingFile(t@, lr.path@, lr.line),
            Phase::Editing(t) => PhaseView::Editing(t@),
        }
    }
}

/// What came of the last action.
pub enum MonitorEvent {
    /// The bacon locations file was read; these are the locations it lists.
    BaconRead(Vec<String>),
    /// The bacon locations file could not be read.
    BaconUnreadable,
    /// The file that the target names was read; this is its text.
    TargetFileRead(String),
    /// The file that the target names could not be read.
    TargetFileUnreadable,
    /// The editor tab was closed.
    EditorClosed,
    /// The editor could not be started.
    EditorFailed,
}

/// `MonitorEvent` with its strings taken by their text.
pub enum EventView {
    BaconRead(Seq<Seq<char>>),
    BaconUnreadable,
    TargetFileRead(Seq<char>),
    TargetFileUnreadable,
    EditorClosed,
    EditorFailed,
}

impl View for MonitorEvent {
    type V = EventView;

    open spec fn view(&self) -> EventView {
        match self {
            MonitorEvent::BaconRead(v) => EventView::BaconRead(views(v@)),
            MonitorEvent::BaconUnreadable => EventView::BaconUnreadable,
            MonitorEvent::TargetFileRead(c) => EventView::TargetFileRead(c@),
            MonitorEvent::TargetFileUnreadable => EventView::TargetFileUnreadable,
            MonitorEvent::EditorClosed => EventView::EditorClosed,
            MonitorEvent::EditorFailed => EventView::EditorFailed,
        }
    }
}

/// How a round ends; after it the program waits and reads the bacon
/// locations file again.
#[derive(Debug)]
pub enum RoundEnd {
    /// The file lists no location: report that and wait a little longer.
    NoWarnings,
    /// The bacon locations file could not be read: report that.
    BaconUnreadable,
    /// The first listed target could not be checked: report why.
    CheckFailed(String, LineRefError),
    /// The file that the first listed target names could not be read.
    TargetFileUnreadable(String),
    /// The first listed target was opened before: nothing to do.
    AlreadyOpened,
    /// The editor tab was closed: read the file again for updates.
    EditorClosed,
    /// The editor could not be started on the target.
    EditorFailed(String),
}

/// `RoundEnd` with its strings taken by their text.
pub enum RoundEndView {
    NoWarnings,
    BaconUnreadable,
    CheckFailed(Seq<char>, LineRefError),
    TargetFileUnreadable(Seq<char>),
    AlreadyOpened,
    EditorClosed,
    EditorFailed(Seq<char>),
}

impl View for RoundEnd {
    type V = RoundEndView;

    open spec fn view(&self) -> RoundEndView {
        match self {
            RoundEnd::NoWarnings => RoundEndView::NoWarnings,
            RoundEnd::BaconUnreadable => RoundEndView::BaconUnreadable,
            RoundEnd::CheckFailed(t, e) => RoundEndView::CheckFailed(t@, *e),
            RoundEnd::TargetFileUnreadable(t) => RoundEndView::TargetFileUnreadable(t@),
            RoundEnd::AlreadyOpened => RoundEndView::AlreadyOpened,
            RoundEnd::EditorClosed => RoundEndView::EditorClosed,
            RoundEnd::EditorFailed(t) => RoundEndView::EditorFailed(t@),
        }
    }
}

/// What the program does next.
#[derive(Debug)]
pub enum MonitorAction {
    /// Read the file at this path and report its text.
    ReadTargetFile(String),
    /// Open the editor on this target and report when its tab is closed.
    OpenEditor(String),
    /// The round is over.
    EndRound(RoundEnd),
    /// The event does not fit the current phase; nothing changes.
    Ignored,
}

/// `MonitorAction` with its strings taken by their text.
pub enum ActionView {
    ReadTargetFile(Seq<char>),
    OpenEditor(Seq<char>),
    EndRound(RoundEndView),
    Ignored,
}

impl View for MonitorAction {
    type V = ActionView;

    open spec fn view(&self) -> ActionView {
        match self {
            MonitorAction::ReadTargetFile(p) => ActionView::ReadTargetFile(p@),
            MonitorAction::OpenEditor(t) => ActionView::OpenEditor(t@),
            MonitorAction::EndRound(e) => ActionView::EndRound(e@),
            MonitorAction::Ignored => ActionView::Ignored,
        }
    }
}

/// One step of the monitor: from the records of opened targets `r` and the
/// phase `ph`, the event `ev` leads to new records, a new phase and an action.
pub open spec fn spec_monitor_step(r: Map<Seq<char>, Seq<char>>, ph: PhaseView, ev: EventView) -> (
    Map<Seq<char>, Seq<char>>,
    PhaseView,
    ActionView,
) {
    match (ph, ev) {
        (PhaseView::Idle, EventView::BaconRead(v)) => if v.len() == 0 {
            (r, PhaseView::Idle, ActionView::EndRound(RoundEndView::NoWarnings))
        } else {
            let t = v[0];
            match spec_parse_line_ref(t) {
                Err(e) => (r, PhaseView::Idle, ActionView::EndRound(RoundEndView::CheckFailed(t, e))),
                Ok((p, n)) => if r.dom().contains(t) {
                    (r, PhaseView::Idle, ActionView::EndRound(RoundEndView::AlreadyOpened))
                } else {
                    (r, PhaseView::AwaitingFile(t, p, n), ActionView::ReadTargetFile(p))
                },
            }
        },
        (PhaseView::Idle, EventView::BaconUnreadable) => (
            r,
            PhaseView::Idle,
            ActionView::EndRound(RoundEndView::BaconUnreadable),
        ),
        (PhaseView::AwaitingFile(t, p, n), EventView::TargetFileRead(c)) => {
            let (r1, res) = spec_check_line_ref(r, t, n, c);
            match res {
                Ok(true) => (r1, PhaseView::Editing(t), ActionView::OpenEditor(t)),
                Ok(false) => (r1, PhaseView::Idle, ActionView::EndRound(RoundEndView::AlreadyOpened)),
                Err(e) => (r1, PhaseView::Idle, ActionView::EndRound(RoundEndView::CheckFailed(t, e))),
            }
        },
        (PhaseView::AwaitingFile(t, p, n), EventView::TargetFileUnreadable) => (
            r,
            PhaseView::Idle,
            ActionView::EndRound(RoundEndView::TargetFileUnreadable(t)),
        ),
        (PhaseView::Editing(t), EventView::EditorClosed) => (
            r,
            PhaseView::Idle,
            ActionView::EndRound(RoundEndView::EditorClosed),
        ),
        (PhaseView::Editing(t), EventView::EditorFailed) => (
            r,
            PhaseView::Idle,
            ActionView::EndRound(RoundEndView::EditorFailed(t)),
        ),
        _ => (r, ph, ActionView::Ignored),
    }
}

/// The monitor: the records of the targets opened so far and the phase of
/// the current round.
pub struct Monitor {
    records: LinesOfConcern,
    phase: Phase,
}

impl Monitor {
    /// The records of the targets opened so far.
    pub closed spec fn records(self) -> Map<Seq<char>, Seq<char>> {
        self.records@
    }

    /// The phase of the current round.
    pub closed spec fn phase(self) -> PhaseView {
        self.phase@
    }

    /// Only finitely many targets are ever recorded.
    pub proof fn lemma_records_finite(&self)
        ensures
            self.records().dom().finite(),
    {
        self.records.lemma_finite();
    }

    /// A monitor that has opened nothing yet, at the start of a round.
    pub fn new() -> (m: Self)
        ensures
            m.records() == Map::<Seq<char>, Seq<char>>::empty(),
            m.records().dom().finite(),
            m.phase() == PhaseView::Idle,
    {
        Monitor { records: LinesOfConcern::new(), phase: Phase::Idle }
    }

    /// Takes what came of the last action into account and says what to do
    /// next.
    pub fn step(&mut self, event: MonitorEvent) -> (a: MonitorAction)
        ensures
            (final(self).records(), final(self).phase(), a@) == spec_monitor_step(
                old(self).records(),
                old(self).phase(),
                event@,
            ),
            final(self).records().dom().finite(),
            forall|k: Seq<char>|
                #[trigger] old(self).records().dom().contains(k) ==> final(self).records().dom().contains(k)
                    && final(self).records()[k] == old(self).records()[k],
    {
        proof {
            self.records.lemma_finite();
            lemma_records_only_grow(self.records@, self.phase@, event@);
        }
        let mut phase = Phase::Idle;
        std::mem::swap(&mut self.phase, &mut phase);
        match phase {
            Phase::Idle => match event {
                MonitorEvent::BaconRead(v) => {
                    if v.len() == 0 {
                        return MonitorAction::EndRound(RoundEnd::NoWarnings);
                    }
                    let t = v[0].clone();
                    assert(views(v@)[0] == v@[0]@);
                    match parse_line_ref(t.as_str()) {
                        Err(e) => MonitorAction::EndRound(RoundEnd::CheckFailed(t, e)),
                        Ok(lr) => {
                            if self.records.contains(t.as_str()) {
                                MonitorAction::EndRound(RoundEnd::AlreadyOpened)
                            } else {
                                let path = lr.path.clone();
                                self.phase = Phase::AwaitingFile(t, lr);
                                MonitorAction::ReadTargetFile(path)
                            }
                        },
                    }
                },
                MonitorEvent::BaconUnreadable => MonitorAction::EndRound(RoundEnd::BaconUnreadable),
                _ => MonitorAction::Ignored,
            },
            Phase::AwaitingFile(t, lr) => match event {
                MonitorEvent::TargetFileRead(c) => match check_line_ref(
                    &mut self.records,
                    t.as_str(),
                    &lr,
                    c.as_str(),
                ) {
                    Ok(true) => {
                        let shown = t.clone();
                        self.phase = Phase::Editing(t);
                        MonitorAction::OpenEditor(shown)
                    },
                    Ok(false) => MonitorAction::EndRound(RoundEnd::AlreadyOpened),
                    Err(e) => MonitorAction::EndRound(RoundEnd::CheckFailed(t, e)),
                },
                MonitorEvent::TargetFileUnreadable => MonitorAction::EndRound(
                    RoundEnd::TargetFileUnreadable(t),
                ),
                _ => {
                    self.phase = Phase::AwaitingFile(t, lr);
                    MonitorAction::Ignored
                },
            },
            Phase::Editing(t) => match event {
                MonitorEvent::EditorClosed => MonitorAction::EndRound(RoundEnd::EditorClosed),
                MonitorEvent::EditorFailed => MonitorAction::EndRound(RoundEnd::EditorFailed(t)),
                _ => {
                    self.phase = Phase::Editing(t);
                    MonitorAction::Ignored
                },
            },
        }
    }
}

/// What holds of every state the monitor reaches: a target it is about to
/// check is well formed and not yet opened; a target shown in the editor is
/// recorded.
pub open spec fn monitor_inv(r: Map<Seq<char>, Seq<char>>, ph: PhaseView) -> bool {
    match ph {
        PhaseView::Idle => true,
        PhaseView::AwaitingFile(t, p, n) => spec_parse_line_ref(t) == Ok::<(Seq<char>, usize), LineRefError>(
            (p, n),
        ) && !r.dom().contains(t),
        PhaseView::Editing(t) => r.dom().contains(t),
    }
}

/// The monitor never forgets an opened target: every step keeps each
/// recorded target with the line it was recorded with, and a step adds at
/// most the one target it opens. So a first listed target that is recorded
/// never makes the monitor read its file or open the editor again.
pub proof fn lemma_records_only_grow(r: Map<Seq<char>, Seq<char>>, ph: PhaseView, ev: EventView)
    ensures
        forall|k: Seq<char>| #[trigger] r.dom().contains(k) ==> spec_monitor_step(r, ph, ev).0.dom().contains(k)
            && spec_monitor_step(r, ph, ev).0[k] == r[k],
        forall|k: Seq<char>|
            #[trigger] spec_monitor_step(r, ph, ev).0.dom().contains(k) && !r.dom().contains(k) ==> spec_monitor_step(
                r,
                ph,
                ev,
            ).2 == ActionView::OpenEditor(k),
        ev matches EventView::BaconRead(v) && v.len() > 0 && r.dom().contains(v[0]) ==> !(spec_monitor_step(
            r,
            ph,
            ev,
        ).2 is ReadTargetFile) && !(spec_monitor_step(r, ph, ev).2 is OpenEditor),
{
}

/// The monitor starts in a state that satisfies its invariant, and every
/// step keeps it.
pub proof fn lemma_monitor_inv(r: Map<Seq<char>, Seq<char>>, ph: PhaseView, ev: EventView)
    ensures
        monitor_inv(Map::empty(), PhaseView::Idle),
        monitor_inv(r, ph) ==> monitor_inv(spec_monitor_step(r, ph, ev).0, spec_monitor_step(r, ph, ev).1),
{
}

/// The editor is opened on a target only after a positive check of it: the
/// monitor was waiting for the file of that very target, the file was read,
/// the target was not opened before and its line exists; the target is then
/// recorded with that line.
pub proof fn lemma_open_only_after_positive_check(
    r: Map<Seq<char>, Seq<char>>,
    ph: PhaseView,
    ev: EventView,
    t: Seq<char>,
)
    requires
        spec_monitor_step(r, ph, ev).2 == ActionView::OpenEditor(t),
    ensures
        match ph {
            PhaseView::AwaitingFile(t2, p, n) => t2 == t && match ev {
                EventView::TargetFileRead(c) => !r.dom().contains(t) && match spec_line_at(c, n) {
                    Ok(l) => spec_monitor_step(r, ph, ev).0 == r.insert(t, l),
                    Err(_) => false,
                },
                _ => false,
            },
            _ => false,
        },
{
}

/// The monitor waits for the file of a target only right after reading the
/// bacon locations file, and only for the first listed target, when it is
/// well formed and not yet opened; any other step leaves that phase as it was.
pub proof fn lemma_awaiting_first_target(r: Map<Seq<char>, Seq<char>>, ph: PhaseView, ev: EventView)
    ensures
        match spec_monitor_step(r, ph, ev).1 {
            PhaseView::AwaitingFile(t, p, n) => {
                ||| (spec_monitor_step(r, ph, ev).1 == ph && spec_monitor_step(r, ph, ev).2
                    == ActionView::Ignored)
                ||| (ph == PhaseView::Idle && match ev {
                    EventView::BaconRead(v) => {
                        &&& v.len() > 0
                        &&& t == v[0]
                        &&& spec_parse_line_ref(t) == Ok::<(Seq<char>, usize), LineRefError>((p, n))
                        &&& !r.dom().contains(t)
                        &&& spec_monitor_step(r, ph, ev).0 == r
                        &&& spec_monitor_step(r, ph, ev).2 == ActionView::ReadTargetFile(p)
                    },
                    _ => false,
                })
            },
            _ => true,
        },
{
}

/// A new first target that names an existing line is opened in the round
/// that reads it: the monitor asks for its file and, given the file, opens
/// the editor on the target.
pub proof fn lemma_new_first_target_opened(
    r: Map<Seq<char>, Seq<char>>,
    v: Seq<Seq<char>>,
    p: Seq<char>,
    n: usize,
    c: Seq<char>,
)
    requires
        v.len() > 0,
        !r.dom().contains(v[0]),
        spec_parse_line_ref(v[0]) == Ok::<(Seq<char>, usize), LineRefError>((p, n)),
        spec_line_at(c, n) is Ok,
    ensures
        spec_monitor_step(r, PhaseView::Idle, EventView::BaconRead(v)) == (
            r,
            PhaseView::AwaitingFile(v[0], p, n),
            ActionView::ReadTargetFile(p),
        ),
        spec_monitor_step(r, PhaseView::AwaitingFile(v[0], p, n), EventView::TargetFileRead(c)) == (
            r.insert(v[0], spec_line_at(c, n)->Ok_0),
            PhaseView::Editing(v[0]),
            ActionView::OpenEditor(v[0]),
        ),
{
}

/// While the editor shows a target, only the editor's return ends the round
/// (after which the bacon locations file is read again); any other event
/// changes nothing.
pub proof fn lemma_editing_waits_for_editor(r: Map<Seq<char>, Seq<char>>, t: Seq<char>, ev: EventView)
    ensures
        ev is EditorClosed ==> spec_monitor_step(r, PhaseView::Editing(t), ev) == (
            r,
            PhaseView::Idle,
            ActionView::EndRound(RoundEndView::EditorClosed),
        ),
        ev is EditorFailed ==> spec_monitor_step(r, PhaseView::Editing(t), ev) == (
            r,
            PhaseView::Idle,
            ActionView::EndRound(RoundEndView::EditorFailed(t)),
        ),
        !(ev is EditorClosed) && !(ev is EditorFailed) ==> spec_monitor_step(r, PhaseView::Editing(t), ev)
            == (r, PhaseView::Editing(t), ActionView::Ignored),
{
}

/// The bacon locations file to read: the first command-line argument after
/// the program name, or `.bacon-locations` when there is none. The flag tells
/// whether the default was taken.
pub fn bacon_file_from_args(args: &Vec<String>) -> (r: (String, bool))
    ensures
        args.len() < 2 ==> r.0@ == ".bacon-locations"@ && r.1,
        args.len() >= 2 ==> r.0@ == args@[1]@ && !r.1,
{
    if args.len() < 2 {
        (".bacon-locations".to_owned(), true)
    } else {
        (args[1].clone(), false)
    }
}

} // verus!
