//! The interactive repair session as a state machine. For each case in turn
//! it has the case shown, asks for a choice until one is settled (asking
//! again after an answer it cannot use, asking for a path when a custom one
//! is chosen, and asking for confirmation before a removal), has the action
//! carried out, reports the outcome and counts it. The caller performs each
//! command (writing, reading a line, touching the file system) and reports
//! back with the matching event.
//!
//! In batch mode the decisions are only collected: once every case has one,
//! the session writes them all out and asks for a single confirmation;
//! only then are they carried out, one case after another, and if the
//! confirmation is declined nothing is carried out at all.

use vstd::prelude::*;
use crate::input::{choice_verdict, describes, parse_choice, ChoiceVerdict, ParseError, ParsedInput};
use crate::model::{recorded, Action, ActionSpec, RepairCase, Summary};
use crate::text::{
    ascii_lowercase, chars_eq, chars_of, decimal, string_of, sub_chars, to_ascii_lowercase, trim,
    trim_bounds,
};

verus! {

/// Where a session stands.
pub enum Phase {
    /// The current case is to be shown next (or the session ends).
    Presenting,
    /// The prompt for a choice is to be written next.
    Prompting,
    /// Waiting for the answer to the prompt.
    Choosing,
    /// Waiting for the custom path.
    EnteringPath,
    /// Waiting for the answer to the confirmation of this action.
    Confirming(Action),
    /// Waiting for the file system to carry out this action.
    Applying(Action),
    /// The case is done; the blank line that closes it is to be written.
    Closing,
    /// In batch mode, the decisions are to be written out for review.
    Reviewing,
    /// In batch mode, waiting for the answer to the final confirmation.
    Approving,
    /// In batch mode, the confirmation was declined; the note saying so is
    /// out and the session ends next.
    Ending,
    /// Every case is done.
    Finished,
}

pub enum PhaseSpec {
    Presenting,
    Prompting,
    Choosing,
    EnteringPath,
    Confirming(ActionSpec),
    Applying(ActionSpec),
    Closing,
    Reviewing,
    Approving,
    Ending,
    Finished,
}

impl View for Phase {
    type V = PhaseSpec;

    open spec fn view(&self) -> PhaseSpec {
        match self {
            Phase::Presenting => PhaseSpec::Presenting,
            Phase::Prompting => PhaseSpec::Prompting,
            Phase::Choosing => PhaseSpec::Choosing,
            Phase::EnteringPath => PhaseSpec::EnteringPath,
            Phase::Confirming(a) => PhaseSpec::Confirming(a@),
            Phase::Applying(a) => PhaseSpec::Applying(a@),
            Phase::Closing => PhaseSpec::Closing,
            Phase::Reviewing => PhaseSpec::Reviewing,
            Phase::Approving => PhaseSpec::Approving,
            Phase::Ending => PhaseSpec::Ending,
            Phase::Finished => PhaseSpec::Finished,
        }
    }
}

/// What the caller reports back after carrying out a command.
pub enum Event {
    /// The text was written (or the session is starting).
    Ready,
    /// The line that was read.
    Line(String),
    /// How carrying out the action went: an error message on failure.
    Applied(Result<(), String>),
}

pub enum EventSpec {
    Ready,
    Line(Seq<char>),
    Applied(Result<(), Seq<char>>),
}

impl View for Event {
    type V = EventSpec;

    open spec fn view(&self) -> EventSpec {
        match self {
            Event::Ready => EventSpec::Ready,
            Event::Line(l) => EventSpec::Line(l@),
            Event::Applied(Ok(())) => EventSpec::Applied(Ok(())),
            Event::Applied(Err(m)) => EventSpec::Applied(Err(m@)),
        }
    }
}

/// What the session asks the caller to do.
pub enum Command {
    /// Write the presentation of the case at this index, then report `Ready`.
    Present(usize),
    /// Write this text, then report `Ready`.
    Say(String),
    /// Write this text, read a line, then report it with `Line`.
    Ask(String),
    /// Carry out this action on the current case's link, then report
    /// `Applied`. A dry run never asks for this.
    Apply(Action),
    /// The session is over, with this summary.
    Done(Summary),
}

pub enum CommandSpec {
    Present(nat),
    Say(Seq<char>),
    Ask(Seq<char>),
    Apply(ActionSpec),
    Done(Summary),
}

impl View for Command {
    type V = CommandSpec;

    open spec fn view(&self) -> CommandSpec {
        match self {
            Command::Present(i) => CommandSpec::Present(*i as nat),
            Command::Say(t) => CommandSpec::Say(t@),
            Command::Ask(t) => CommandSpec::Ask(t@),
            Command::Apply(a) => CommandSpec::Apply(a@),
            Command::Done(s) => CommandSpec::Done(*s),
        }
    }
}

/// The kind of event a session waits for.
#[derive(Debug, Clone, Copy, PartialEq, Eq, Structural)]
pub enum Expecting {
    Ready,
    Line,
    Applied,
    Nothing,
}

/// A repair session over `count` cases.
pub struct Session {
    index: usize,
    count: usize,
    phase: Phase,
    summary: Summary,
    dry_run: bool,
    batch: bool,
    executing: bool,
    decided: Vec<Action>,
}

pub struct SessionView {
    /// The case being worked on.
    pub index: nat,
    /// How many cases there are.
    pub count: nat,
    pub phase: PhaseSpec,
    pub summary: Summary,
    pub dry_run: bool,
    /// Decisions are collected and carried out only after one final
    /// confirmation.
    pub batch: bool,
    /// In batch mode, the collected decisions are being carried out.
    pub executing: bool,
    /// In batch mode, the decision for each case so far.
    pub decided: Seq<ActionSpec>,
}

impl View for Session {
    type V = SessionView;

    closed spec fn view(&self) -> SessionView {
        SessionView {
            index: self.index as nat,
            count: self.count as nat,
            phase: self.phase@,
            summary: self.summary,
            dry_run: self.dry_run,
            batch: self.batch,
            executing: self.executing,
            decided: self.decided@.map_values(|a: Action| a@),
        }
    }
}

// ---------------------------------------------------------------------------
// The rules of a session
// ---------------------------------------------------------------------------

/// The prompt for a choice.
pub open spec fn prompt_text() -> Seq<char> {
    "> "@
}

/// The prompt for a custom path.
pub open spec fn path_prompt_text() -> Seq<char> {
    "  enter path: "@
}

/// The question asked before removing `link`.
pub open spec fn confirmation_text(link: Seq<char>) -> Seq<char> {
    "  remove "@ + link + "? [y/N] "@
}

/// A confirmation answer that says yes: `y` or `yes` in any ASCII case,
/// surrounding whitespace ignored.
pub open spec fn confirms(line: Seq<char>) -> bool {
    let a = ascii_lowercase(trim(line));
    a == seq!['y'] || a == seq!['y', 'e', 's']
}

/// How a decision is written out for review.
pub open spec fn decision_text(a: ActionSpec) -> Seq<char> {
    match a {
        ActionSpec::Relink(t) => "relink -> "@ + t,
        ActionSpec::Skip => "skip"@,
        ActionSpec::Remove => "remove"@,
    }
}

/// The review lines for the first `k` decisions: each case's link and
/// what was decided for it.
pub open spec fn review_lines(cases: Seq<RepairCase>, decided: Seq<ActionSpec>, k: nat) -> Seq<char>
    decreases k,
{
    if k == 0 {
        Seq::empty()
    } else {
        review_lines(cases, decided, (k - 1) as nat) + "  "@ + cases[k - 1].link@ + ": "@
            + decision_text(decided[k - 1]) + "\n"@
    }
}

/// The review of every decision, written before the final confirmation.
pub open spec fn review_text(cases: Seq<RepairCase>, decided: Seq<ActionSpec>) -> Seq<char> {
    review_lines(cases, decided, decided.len())
}

/// The final confirmation asked in batch mode.
pub open spec fn approval_text() -> Seq<char> {
    "apply these changes? [y/N] "@
}

/// The note written when the final confirmation is declined.
pub open spec fn declined_text() -> Seq<char> {
    "  no changes applied\n"@
}

/// Whether an action is only carried out once the user confirms it.
pub open spec fn needs_confirmation_spec(a: ActionSpec) -> bool {
    a is Remove
}

/// The message for an answer that was refused.
pub open spec fn refusal_text(v: ChoiceVerdict) -> Seq<char> {
    match v {
        ChoiceVerdict::Empty => "no input provided"@,
        ChoiceVerdict::OutOfRange(g, m) => "selection "@ + decimal(g as nat) + " is out of range (1-"@
            + decimal(m as nat) + ")"@,
        ChoiceVerdict::Unrecognized(s) => "unrecognized input: "@ + s,
        ChoiceVerdict::Parsed(_) => Seq::empty(),
    }
}

/// What is reported once `a` was carried out.
pub open spec fn outcome_text(a: ActionSpec, dry_run: bool) -> Seq<char> {
    match a {
        ActionSpec::Relink(t) => if dry_run {
            "  [dry run] would relink -> "@ + t + "\n"@
        } else {
            "  relinked -> "@ + t + "\n"@
        },
        ActionSpec::Remove => if dry_run {
            "  [dry run] would remove\n"@
        } else {
            "  removed\n"@
        },
        ActionSpec::Skip => Seq::empty(),
    }
}

pub open spec fn with_phase(s: SessionView, p: PhaseSpec) -> SessionView {
    SessionView { phase: p, ..s }
}

/// Once `a` was carried out: count it and report the outcome (when there is
/// one to report), else close the case at once.
pub open spec fn finish(s: SessionView, a: ActionSpec) -> (SessionView, CommandSpec) {
    let done = SessionView { summary: recorded(s.summary, a), ..s };
    if outcome_text(a, s.dry_run).len() > 0 {
        (with_phase(done, PhaseSpec::Closing), CommandSpec::Say(outcome_text(a, s.dry_run)))
    } else {
        (
            SessionView { index: s.index + 1, phase: PhaseSpec::Presenting, ..done },
            CommandSpec::Say("\n"@),
        )
    }
}

/// Carries out `a`: in a dry run nothing is touched and the action counts as
/// done; otherwise the caller is asked to carry it out.
pub open spec fn carry_out(s: SessionView, a: ActionSpec) -> (SessionView, CommandSpec) {
    if s.dry_run {
        finish(s, a)
    } else {
        (with_phase(s, PhaseSpec::Applying(a)), CommandSpec::Apply(a))
    }
}

/// Once the decision for the current case is final: in batch mode, note it
/// and go on to the next case; otherwise carry it out.
pub open spec fn commit(s: SessionView, a: ActionSpec) -> (SessionView, CommandSpec) {
    if s.batch {
        (
            SessionView {
                index: s.index + 1,
                phase: PhaseSpec::Presenting,
                decided: s.decided.push(a),
                ..s
            },
            CommandSpec::Say("\n"@),
        )
    } else {
        carry_out(s, a)
    }
}

/// Once an action is settled: ask for confirmation when it needs one, else
/// commit it.
pub open spec fn settle(s: SessionView, a: ActionSpec, link: Seq<char>) -> (SessionView, CommandSpec) {
    if needs_confirmation_spec(a) {
        (with_phase(s, PhaseSpec::Confirming(a)), CommandSpec::Ask(confirmation_text(link)))
    } else {
        commit(s, a)
    }
}

/// The start of the current case: once every case is done, the review of
/// the collected decisions (batch mode, before they are carried out) or the
/// end; while carrying out collected decisions, the current one; otherwise
/// the showing of the case.
pub open spec fn begin_case(s: SessionView, cases: Seq<RepairCase>) -> (SessionView, CommandSpec) {
    if s.index >= s.count {
        if s.batch && !s.executing && s.count > 0 {
            (with_phase(s, PhaseSpec::Reviewing), CommandSpec::Say(review_text(cases, s.decided)))
        } else {
            (with_phase(s, PhaseSpec::Finished), CommandSpec::Done(s.summary))
        }
    } else if s.executing {
        carry_out(s, s.decided[s.index as int])
    } else {
        (with_phase(s, PhaseSpec::Prompting), CommandSpec::Present(s.index))
    }
}

/// The next state and command of a session in state `s` over `cases` on
/// event `e`.
pub open spec fn transition(s: SessionView, cases: Seq<RepairCase>, e: EventSpec) -> (
    SessionView,
    CommandSpec,
) {
    match (s.phase, e) {
        (PhaseSpec::Presenting, EventSpec::Ready) => begin_case(s, cases),
        (PhaseSpec::Prompting, EventSpec::Ready) => (
            with_phase(s, PhaseSpec::Choosing),
            CommandSpec::Ask(prompt_text()),
        ),
        (PhaseSpec::Choosing, EventSpec::Line(l)) => {
            let case = cases[s.index as int];
            let v = choice_verdict(l, case.candidates.len());
            match v {
                ChoiceVerdict::Parsed(ParsedInput::SelectCandidate(k)) => settle(
                    s,
                    ActionSpec::Relink(case.candidates@[k as int].path@),
                    case.link@,
                ),
                ChoiceVerdict::Parsed(ParsedInput::Skip) => settle(s, ActionSpec::Skip, case.link@),
                ChoiceVerdict::Parsed(ParsedInput::Remove) => settle(
                    s,
                    ActionSpec::Remove,
                    case.link@,
                ),
                ChoiceVerdict::Parsed(ParsedInput::CustomPath) => (
                    with_phase(s, PhaseSpec::EnteringPath),
                    CommandSpec::Ask(path_prompt_text()),
                ),
                _ => (
                    with_phase(s, PhaseSpec::Prompting),
                    CommandSpec::Say("  "@ + refusal_text(v) + "\n"@),
                ),
            }
        },
        (PhaseSpec::EnteringPath, EventSpec::Line(l)) => if trim(l).len() == 0 {
            (with_phase(s, PhaseSpec::Choosing), CommandSpec::Ask(prompt_text()))
        } else {
            settle(s, ActionSpec::Relink(trim(l)), cases[s.index as int].link@)
        },
        (PhaseSpec::Confirming(a), EventSpec::Line(l)) => if confirms(l) {
            commit(s, a)
        } else {
            (with_phase(s, PhaseSpec::Choosing), CommandSpec::Ask(prompt_text()))
        },
        (PhaseSpec::Applying(a), EventSpec::Applied(Ok(()))) => finish(s, a),
        (PhaseSpec::Applying(a), EventSpec::Applied(Err(m))) => {
            let done = SessionView { summary: recorded(s.summary, ActionSpec::Skip), ..s };
            (with_phase(done, PhaseSpec::Closing), CommandSpec::Say("  error: "@ + m + "\n"@))
        },
        (PhaseSpec::Closing, EventSpec::Ready) => (
            SessionView { index: s.index + 1, phase: PhaseSpec::Presenting, ..s },
            CommandSpec::Say("\n"@),
        ),
        (PhaseSpec::Reviewing, EventSpec::Ready) => (
            with_phase(s, PhaseSpec::Approving),
            CommandSpec::Ask(approval_text()),
        ),
        (PhaseSpec::Approving, EventSpec::Line(l)) => if confirms(l) {
            begin_case(
                SessionView { index: 0, executing: true, phase: PhaseSpec::Presenting, ..s },
                cases,
            )
        } else {
            (
                SessionView {
                    phase: PhaseSpec::Ending,
                    summary: Summary { relinked: 0, skipped: s.count as usize, removed: 0 },
                    ..s
                },
                CommandSpec::Say(declined_text()),
            )
        },
        (PhaseSpec::Ending, EventSpec::Ready) => (
            with_phase(s, PhaseSpec::Finished),
            CommandSpec::Done(s.summary),
        ),
        _ => (s, CommandSpec::Done(s.summary)),
    }
}

/// The kind of event that a session in phase `p` waits for.
pub open spec fn expecting_spec(p: PhaseSpec) -> Expecting {
    match p {
        PhaseSpec::Presenting | PhaseSpec::Prompting | PhaseSpec::Closing | PhaseSpec::Reviewing
        | PhaseSpec::Ending => Expecting::Ready,
        PhaseSpec::Choosing | PhaseSpec::EnteringPath | PhaseSpec::Confirming(_)
        | PhaseSpec::Approving => Expecting::Line,
        PhaseSpec::Applying(_) => Expecting::Applied,
        PhaseSpec::Finished => Expecting::Nothing,
    }
}

/// The kind of an event.
pub open spec fn event_kind(e: EventSpec) -> Expecting {
    match e {
        EventSpec::Ready => Expecting::Ready,
        EventSpec::Line(_) => Expecting::Line,
        EventSpec::Applied(_) => Expecting::Applied,
    }
}

/// The phases in which a case is being decided.
pub open spec fn deciding_phase(p: PhaseSpec) -> bool {
    p is Prompting || p is Choosing || p is EnteringPath || p is Confirming
}

/// A consistent session state. Every case before the current one is counted
/// once in the summary (the current one too once it is closing), and a
/// session past its last case has counted every case. In batch mode, while
/// decisions are being collected nothing is counted or carried out and
/// there is one decision per case before the current one; once they are
/// being carried out there is a decision for every case.
pub open spec fn session_wf(s: SessionView) -> bool {
    &&& s.index <= s.count <= usize::MAX
    &&& (s.phase matches PhaseSpec::Confirming(a) ==> needs_confirmation_spec(a))
    &&& (s.phase is Finished ==> s.index == s.count && s.summary.total_spec() == s.count)
    &&& (!s.batch ==> !s.executing && s.decided.len() == 0)
    &&& if !s.batch || s.executing {
        &&& s.summary.total_spec() == s.index + (if s.phase is Closing {
            1int
        } else {
            0int
        })
        &&& (s.batch ==> s.decided.len() == s.count)
        &&& (!(s.phase is Presenting || s.phase is Finished) ==> s.index < s.count)
        &&& !(s.phase is Reviewing || s.phase is Approving || s.phase is Ending)
        &&& (s.executing ==> !deciding_phase(s.phase))
    } else {
        &&& s.decided.len() == s.index
        &&& (s.phase is Ending || s.phase is Finished ==> s.index == s.count
            && s.summary.total_spec() == s.count)
        &&& (!(s.phase is Ending || s.phase is Finished) ==> s.summary == Summary {
            relinked: 0,
            skipped: 0,
            removed: 0,
        })
        &&& (s.phase is Reviewing || s.phase is Approving ==> s.index == s.count && s.count > 0)
        &&& (deciding_phase(s.phase) ==> s.index < s.count)
        &&& !(s.phase is Applying || s.phase is Closing)
    }
}

// ---------------------------------------------------------------------------
// Laws
// ---------------------------------------------------------------------------

/// Every step keeps a session consistent: each finished case is counted
/// exactly once, and the session never runs past its last case.
pub proof fn lemma_transition_keeps_wf(s: SessionView, cases: Seq<RepairCase>, e: EventSpec)
    requires
        session_wf(s),
        cases.len() == s.count,
        event_kind(e) == expecting_spec(s.phase),
    ensures
        session_wf(transition(s, cases, e).0),
{
}

/// When a session is over, every case has been counted once.
pub proof fn lemma_finished_counts_every_case(s: SessionView)
    requires
        session_wf(s),
        s.phase is Finished,
    ensures
        s.summary.total_spec() == s.count,
{
}

/// A link is only removed after the user confirmed the removal: the command
/// to remove comes only from a confirmation answer that says yes.
pub proof fn lemma_removal_needs_confirmation(s: SessionView, cases: Seq<RepairCase>, e: EventSpec)
    requires
        session_wf(s),
        !s.batch,
        transition(s, cases, e).1 == CommandSpec::Apply(ActionSpec::Remove),
    ensures
        s.phase == PhaseSpec::Confirming(ActionSpec::Remove),
        e matches EventSpec::Line(l) && confirms(l),
{
}

/// A link is only pointed at one of its candidates or at the path the user
/// typed (with surrounding whitespace cut off).
pub proof fn lemma_relink_target_origin(
    s: SessionView,
    cases: Seq<RepairCase>,
    e: EventSpec,
    p: Seq<char>,
)
    requires
        session_wf(s),
        !s.batch,
        transition(s, cases, e).1 == CommandSpec::Apply(ActionSpec::Relink(p)),
    ensures
        ({
            ||| exists|k: int|
                0 <= k < cases[s.index as int].candidates@.len() && p
                    == #[trigger] cases[s.index as int].candidates@[k].path@
            ||| s.phase is EnteringPath && (e matches EventSpec::Line(l) && p == trim(l))
        }),
{
    if s.phase is Choosing && e is Line {
        let l = e->Line_0;
        let case = cases[s.index as int];
        let v = choice_verdict(l, case.candidates.len());
        if let ChoiceVerdict::Parsed(ParsedInput::SelectCandidate(k)) = v {
            crate::input::lemma_selection_in_range(l, case.candidates.len());
            assert(p == cases[s.index as int].candidates@[k as int].path@);
        }
    }
}

/// An answer that selects candidate `k` of the current case settles on
/// relinking to exactly that candidate: outside batch mode and dry runs the
/// link is to be relinked to it, in a dry run the report names it, and in
/// batch mode it becomes the decision collected for the case.
pub proof fn lemma_selection_relinks_to_that_candidate(
    s: SessionView,
    cases: Seq<RepairCase>,
    l: Seq<char>,
    k: usize,
)
    requires
        session_wf(s),
        cases.len() == s.count,
        s.phase is Choosing,
        choice_verdict(l, cases[s.index as int].candidates.len()) == ChoiceVerdict::Parsed(
            ParsedInput::SelectCandidate(k),
        ),
    ensures
        k < cases[s.index as int].candidates@.len(),
        ({
            let p = cases[s.index as int].candidates@[k as int].path@;
            let (s1, c1) = transition(s, cases, EventSpec::Line(l));
            &&& !s.batch && !s.dry_run ==> c1 == CommandSpec::Apply(ActionSpec::Relink(p))
                && s1.phase == PhaseSpec::Applying(ActionSpec::Relink(p))
            &&& !s.batch && s.dry_run ==> c1 == CommandSpec::Say(
                "  [dry run] would relink -> "@ + p + "\n"@,
            )
            &&& s.batch ==> s1.decided == s.decided.push(ActionSpec::Relink(p))
        }),
{
    crate::input::lemma_selection_in_range(l, cases[s.index as int].candidates.len());
}

/// Typing the number shown beside a candidate (candidate `k` is shown as
/// `k + 1`) relinks to that candidate, as
/// `lemma_selection_relinks_to_that_candidate` says.
pub proof fn lemma_shown_number_relinks_to_candidate(
    s: SessionView,
    cases: Seq<RepairCase>,
    k: nat,
)
    requires
        session_wf(s),
        cases.len() == s.count,
        s.phase is Choosing,
        k < cases[s.index as int].candidates@.len(),
    ensures
        ({
            let p = cases[s.index as int].candidates@[k as int].path@;
            let (s1, c1) = transition(s, cases, EventSpec::Line(decimal(k + 1)));
            &&& !s.batch && !s.dry_run ==> c1 == CommandSpec::Apply(ActionSpec::Relink(p))
            &&& !s.batch && s.dry_run ==> c1 == CommandSpec::Say(
                "  [dry run] would relink -> "@ + p + "\n"@,
            )
            &&& s.batch ==> s1.decided == s.decided.push(ActionSpec::Relink(p))
        }),
{
    let n = cases[s.index as int].candidates.len();
    crate::input::lemma_shown_number_selects(k, n);
    lemma_selection_relinks_to_that_candidate(s, cases, decimal(k + 1), k as usize);
}

/// A custom path is used as typed, with surrounding whitespace cut off: a
/// non-blank answer to the path prompt settles on relinking to it (carried
/// out at once outside batch mode and dry runs, collected as the case's
/// decision in batch mode), and a blank one goes back to the prompt for a
/// choice without settling anything.
pub proof fn lemma_custom_path_relinks_to_it(s: SessionView, cases: Seq<RepairCase>, l: Seq<char>)
    requires
        session_wf(s),
        cases.len() == s.count,
        s.phase is EnteringPath,
    ensures
        ({
            let (s1, c1) = transition(s, cases, EventSpec::Line(l));
            &&& trim(l).len() > 0 && !s.batch && !s.dry_run ==> c1 == CommandSpec::Apply(
                ActionSpec::Relink(trim(l)),
            )
            &&& trim(l).len() > 0 && s.batch ==> s1.decided == s.decided.push(
                ActionSpec::Relink(trim(l)),
            )
            &&& trim(l).len() == 0 ==> c1 == CommandSpec::Ask(prompt_text()) && s1.phase
                is Choosing && s1.index == s.index && s1.summary == s.summary && s1.decided
                == s.decided
        }),
{
}

/// Once an action was carried out, it is counted under its own kind (a
/// relink as relinked, a skip as skipped, a removal as removed); one that
/// failed counts as skipped. No other count changes.
pub proof fn lemma_outcome_counted(
    s: SessionView,
    cases: Seq<RepairCase>,
    a: ActionSpec,
    res: Result<(), Seq<char>>,
)
    requires
        session_wf(s),
        s.phase == PhaseSpec::Applying(a),
    ensures
        ({
            let t = transition(s, cases, EventSpec::Applied(res)).0.summary;
            let ok = res is Ok;
            &&& t.relinked == s.summary.relinked + (if ok && a is Relink {
                1int
            } else {
                0int
            })
            &&& t.removed == s.summary.removed + (if ok && a is Remove {
                1int
            } else {
                0int
            })
            &&& t.skipped == s.summary.skipped + (if !ok || a is Skip {
                1int
            } else {
                0int
            })
        }),
{
}

/// An answer that cannot be used is answered with the message of the error
/// that `parse_choice` gives for it, on a line of its own after two spaces,
/// and the prompt comes again; nothing is settled or counted.
pub proof fn lemma_refused_answer_reprompts(
    s: SessionView,
    cases: Seq<RepairCase>,
    l: Seq<char>,
    e: ParseError,
)
    requires
        session_wf(s),
        cases.len() == s.count,
        s.phase is Choosing,
        describes(Err(e), choice_verdict(l, cases[s.index as int].candidates.len())),
    ensures
        ({
            let (s1, c1) = transition(s, cases, EventSpec::Line(l));
            &&& c1 == CommandSpec::Say("  "@ + e.message() + "\n"@)
            &&& s1.phase is Prompting
            &&& s1.index == s.index && s1.summary == s.summary && s1.decided == s.decided
        }),
{
}

/// Declining a confirmation settles nothing: the prompt for a choice comes
/// again on the same case, with nothing counted or collected.
pub proof fn lemma_declined_confirmation_reprompts(
    s: SessionView,
    cases: Seq<RepairCase>,
    l: Seq<char>,
)
    requires
        session_wf(s),
        s.phase is Confirming,
        !confirms(l),
    ensures
        ({
            let (s1, c1) = transition(s, cases, EventSpec::Line(l));
            &&& c1 == CommandSpec::Ask(prompt_text())
            &&& s1.phase is Choosing
            &&& s1.index == s.index && s1.summary == s.summary && s1.decided == s.decided
        }),
{
}

/// What is reported once an action was carried out on the file system (a
/// dry run carries nothing out): a relink names the new
/// target, a removal says so, and a failure gives its error message; each
/// of these closes the case after its line. A skip reports nothing and moves
/// straight on to the next case.
pub proof fn lemma_outcome_reported(
    s: SessionView,
    cases: Seq<RepairCase>,
    a: ActionSpec,
    res: Result<(), Seq<char>>,
)
    requires
        session_wf(s),
        !s.dry_run,
        s.phase == PhaseSpec::Applying(a),
    ensures
        ({
            let (s1, c1) = transition(s, cases, EventSpec::Applied(res));
            &&& (res matches Err(m) ==> c1 == CommandSpec::Say("  error: "@ + m + "\n"@)
                && s1.phase is Closing)
            &&& (a matches ActionSpec::Relink(p) ==> (res is Ok ==> c1 == CommandSpec::Say(
                "  relinked -> "@ + p + "\n"@,
            ) && s1.phase is Closing))
            &&& (res is Ok && a is Remove ==> c1 == CommandSpec::Say("  removed\n"@) && s1.phase
                is Closing)
            &&& (res is Ok && a is Skip ==> c1 == CommandSpec::Say("\n"@) && s1.phase
                is Presenting && s1.index == s.index + 1)
        }),
{
    reveal_strlit("  relinked -> ");
    reveal_strlit("  removed\n");
}

/// A dry run never asks for anything to be carried out on the file system.
pub proof fn lemma_dry_run_touches_nothing(s: SessionView, cases: Seq<RepairCase>, e: EventSpec)
    requires
        session_wf(s),
        s.dry_run,
        !(s.phase is Applying),
    ensures
        !(transition(s, cases, e).1 is Apply),
        !(transition(s, cases, e).0.phase is Applying),
{
}

/// Outside a dry run, an answer never moves the session to another case
/// and never changes the counts: only the report that an action was carried
/// out does. (In a dry run a settled action counts at once, as nothing is
/// carried out.)
pub proof fn lemma_answers_stay_on_case(
    s: SessionView,
    cases: Seq<RepairCase>,
    l: Seq<char>,
)
    requires
        session_wf(s),
        !s.dry_run,
        !s.batch,
        expecting_spec(s.phase) == Expecting::Line,
    ensures
        transition(s, cases, EventSpec::Line(l)).0.index == s.index,
        transition(s, cases, EventSpec::Line(l)).0.summary == s.summary,
{
}

/// In batch mode nothing is carried out before the final confirmation: the
/// first command to carry something out, or the start of carrying the
/// decisions out, comes only from a final confirmation answer that says yes.
pub proof fn lemma_batch_nothing_before_approval(s: SessionView, cases: Seq<RepairCase>, e: EventSpec)
    requires
        session_wf(s),
        s.batch,
        !s.executing,
    ensures
        (transition(s, cases, e).1 is Apply || transition(s, cases, e).0.executing) ==> (s.phase
            is Approving && (e matches EventSpec::Line(l) && confirms(l))),
{
}

/// In batch mode, declining the final confirmation carries nothing out:
/// every case counts as skipped and the session ends without a command to
/// carry anything out.
pub proof fn lemma_batch_declined_changes_nothing(
    s: SessionView,
    cases: Seq<RepairCase>,
    l: Seq<char>,
)
    requires
        session_wf(s),
        s.phase is Approving,
        !confirms(l),
    ensures
        ({
            let (s1, c1) = transition(s, cases, EventSpec::Line(l));
            let (s2, c2) = transition(s1, cases, EventSpec::Ready);
            &&& c1 == CommandSpec::Say(declined_text())
            &&& !s1.executing && s1.phase is Ending
            &&& s1.summary == (Summary { relinked: 0, skipped: s.count as usize, removed: 0 })
            &&& c2 == CommandSpec::Done(s1.summary)
            &&& s2.phase is Finished
        }),
{
}

/// In batch mode, what is carried out for a case is the decision collected
/// for it.
pub proof fn lemma_batch_carries_out_decisions(
    s: SessionView,
    cases: Seq<RepairCase>,
    e: EventSpec,
    a: ActionSpec,
)
    requires
        session_wf(s),
        s.batch,
        transition(s, cases, e).1 == CommandSpec::Apply(a),
    ensures
        transition(s, cases, e).0.index < s.decided.len(),
        a == s.decided[transition(s, cases, e).0.index as int],
{
}

/// In batch mode, a removal is only collected after the user confirmed it.
pub proof fn lemma_batch_removal_decided_after_confirmation(
    s: SessionView,
    cases: Seq<RepairCase>,
    e: EventSpec,
)
    requires
        session_wf(s),
        s.batch,
        !s.executing,
        transition(s, cases, e).0.decided.len() == s.decided.len() + 1,
        transition(s, cases, e).0.decided.last() == ActionSpec::Remove,
    ensures
        s.phase == PhaseSpec::Confirming(ActionSpec::Remove),
        e matches EventSpec::Line(l) && confirms(l),
{
    if s.phase is Choosing && e is Line {
        let l = e->Line_0;
        let v = choice_verdict(l, cases[s.index as int].candidates.len());
        assert(!(v matches ChoiceVerdict::Parsed(ParsedInput::Remove)));
    }
}

// ---------------------------------------------------------------------------
// Executable session
// ---------------------------------------------------------------------------

fn text(s: &str) -> (r: String)
    ensures
        r@ == s@,
{
    let mut r = String::new();
    r.append(s);
    assert(r@ =~= s@);
    r
}

/// Whether a confirmation answer says yes.
pub fn parse_confirmation(line: &str) -> (r: bool)
    ensures
        r == confirms(line@),
{
    let cs = chars_of(line);
    let (lo, hi) = trim_bounds(&cs);
    let t = sub_chars(&cs, lo, hi);
    let low = to_ascii_lowercase(&t);
    let y = vec!['y'];
    let yes = vec!['y', 'e', 's'];
    assert(y@ =~= seq!['y'] && yes@ =~= seq!['y', 'e', 's']);
    chars_eq(&low, &y) || chars_eq(&low, &yes)
}

/// Whether `action` is only carried out once the user confirms it: only a
/// removal is.
pub fn needs_confirmation(action: &Action) -> (r: bool)
    ensures
        r == needs_confirmation_spec(action@),
{
    match action {
        Action::Remove => true,
        _ => false,
    }
}

/// The question asked before `action` is carried out on `link`.
pub fn format_confirmation(link: &str) -> (r: String)
    ensures
        r@ == confirmation_text(link@),
{
    let mut r = String::new();
    r.append("  remove ");
    r.append(link);
    r.append("? [y/N] ");
    assert(r@ =~= confirmation_text(link@));
    r
}

/// What is reported once `action` was carried out (nothing for a skip).
pub fn format_outcome(action: &Action, dry_run: bool) -> (r: String)
    ensures
        r@ == outcome_text(action@, dry_run),
{
    let mut r = String::new();
    match action {
        Action::Relink(t) => {
            if dry_run {
                r.append("  [dry run] would relink -> ");
            } else {
                r.append("  relinked -> ");
            }
            r.append(t.as_str());
            r.append("\n");
        },
        Action::Remove => {
            if dry_run {
                r.append("  [dry run] would remove\n");
            } else {
                r.append("  removed\n");
            }
        },
        Action::Skip => {},
    }
    assert(r@ =~= outcome_text(action@, dry_run));
    r
}

proof fn lemma_outcome_empty_only_for_skip(a: ActionSpec, dry_run: bool)
    ensures
        (outcome_text(a, dry_run).len() > 0) == !(a is Skip),
{
    reveal_strlit("  removed\n");
    reveal_strlit("  [dry run] would remove\n");
    reveal_strlit("\n");
}

/// Appends how the decision `a` is written out for review.
fn push_decision(w: &mut String, a: &Action)
    ensures
        final(w)@ == old(w)@ + decision_text(a@),
{
    match a {
        Action::Relink(t) => {
            w.append("relink -> ");
            w.append(t.as_str());
        },
        Action::Skip => {
            w.append("skip");
        },
        Action::Remove => {
            w.append("remove");
        },
    }
    assert(w@ =~= old(w)@ + decision_text(a@));
}

/// The review of the collected decisions: one line per case with its link
/// and what was decided for it.
pub fn format_review(cases: &Vec<RepairCase>, decided: &Vec<Action>) -> (r: String)
    requires
        decided.len() <= cases.len(),
    ensures
        r@ == review_text(cases@, decided@.map_values(|a: Action| a@)),
{
    let ghost d = decided@.map_values(|a: Action| a@);
    let mut r = String::new();
    let mut i: usize = 0;
    while i < decided.len()
        invariant
            i <= decided.len() <= cases.len(),
            d == decided@.map_values(|a: Action| a@),
            r@ == review_lines(cases@, d, i as nat),
        decreases decided.len() - i,
    {
        let ghost before = r@;
        r.append("  ");
        r.append(cases[i].link.as_str());
        r.append(": ");
        push_decision(&mut r, &decided[i]);
        r.append("\n");
        assert(d[i as int] == decided@[i as int]@);
        assert(r@ =~= before + "  "@ + cases@[i as int].link@ + ": "@ + decision_text(d[i as int])
            + "\n"@);
        i += 1;
    }
    r
}

fn copy_action(a: &Action) -> (r: Action)
    ensures
        r@ == a@,
{
    match a {
        Action::Relink(p) => Action::Relink(p.clone()),
        Action::Skip => Action::Skip,
        Action::Remove => Action::Remove,
    }
}

impl Event {
    /// The kind of this event.
    pub fn kind(&self) -> (r: Expecting)
        ensures
            r == event_kind(self@),
    {
        match self {
            Event::Ready => Expecting::Ready,
            Event::Line(_) => Expecting::Line,
            Event::Applied(_) => Expecting::Applied,
        }
    }
}

impl Session {
    /// A session over `count` cases, before anything was shown; in `batch`
    /// mode the decisions are carried out only after a final confirmation.
    pub fn new(count: usize, dry_run: bool, batch: bool) -> (r: Session)
        ensures
            r@ == (SessionView {
                index: 0,
                count: count as nat,
                phase: PhaseSpec::Presenting,
                summary: Summary { relinked: 0, skipped: 0, removed: 0 },
                dry_run,
                batch,
                executing: false,
                decided: Seq::empty(),
            }),
            session_wf(r@),
    {
        let r = Session {
            index: 0,
            count,
            phase: Phase::Presenting,
            summary: Summary::new(),
            dry_run,
            batch,
            executing: false,
            decided: Vec::new(),
        };
        assert(r@.decided =~= Seq::<ActionSpec>::empty());
        r
    }

    /// The kind of event the session waits for.
    pub fn expecting(&self) -> (r: Expecting)
        ensures
            r == expecting_spec(self@.phase),
    {
        match self.phase {
            Phase::Presenting | Phase::Prompting | Phase::Closing | Phase::Reviewing
            | Phase::Ending => Expecting::Ready,
            Phase::Choosing | Phase::EnteringPath | Phase::Confirming(_) | Phase::Approving =>
                Expecting::Line,
            Phase::Applying(_) => Expecting::Applied,
            Phase::Finished => Expecting::Nothing,
        }
    }

    /// The counts so far.
    pub fn summary(&self) -> (r: Summary)
        ensures
            r == self@.summary,
    {
        self.summary
    }

    /// The index of the case being worked on.
    pub fn current(&self) -> (r: usize)
        ensures
            r == self@.index,
    {
        self.index
    }

    fn finish(&mut self, action: Action) -> (r: Command)
        requires
            session_wf(old(self)@),
            old(self)@.index < old(self)@.count,
            !(old(self)@.phase is Closing),
            !old(self)@.batch || old(self)@.executing,
        ensures
            (final(self)@, r@) == finish(old(self)@, action@),
            session_wf(final(self)@),
    {
        self.summary.record(&action);
        let out = format_outcome(&action, self.dry_run);
        proof {
            lemma_outcome_empty_only_for_skip(action@, self.dry_run);
        }
        let reported = match action {
            Action::Skip => false,
            _ => true,
        };
        if reported {
            self.phase = Phase::Closing;
            Command::Say(out)
        } else {
            self.index = self.index + 1;
            self.phase = Phase::Presenting;
            Command::Say(text("\n"))
        }
    }

    fn carry_out(&mut self, action: Action) -> (r: Command)
        requires
            session_wf(old(self)@),
            old(self)@.index < old(self)@.count,
            !(old(self)@.phase is Closing),
            !old(self)@.batch || old(self)@.executing,
        ensures
            (final(self)@, r@) == carry_out(old(self)@, action@),
            session_wf(final(self)@),
    {
        if self.dry_run {
            self.finish(action)
        } else {
            let a = copy_action(&action);
            self.phase = Phase::Applying(action);
            Command::Apply(a)
        }
    }

    fn commit(&mut self, action: Action) -> (r: Command)
        requires
            session_wf(old(self)@),
            deciding_phase(old(self)@.phase),
        ensures
            (final(self)@, r@) == commit(old(self)@, action@),
            session_wf(final(self)@),
    {
        if self.batch {
            let ghost before = self@.decided;
            self.decided.push(action);
            self.index = self.index + 1;
            self.phase = Phase::Presenting;
            assert(self@.decided =~= before.push(action@));
            Command::Say(text("\n"))
        } else {
            self.carry_out(action)
        }
    }

    fn begin_case(&mut self, cases: &Vec<RepairCase>) -> (r: Command)
        requires
            session_wf(old(self)@),
            old(self)@.phase is Presenting,
            cases.len() == old(self)@.count,
        ensures
            (final(self)@, r@) == begin_case(old(self)@, cases@),
            session_wf(final(self)@),
    {
        if self.index >= self.count {
            if self.batch && !self.executing && self.count > 0 {
                let review = format_review(cases, &self.decided);
                self.phase = Phase::Reviewing;
                Command::Say(review)
            } else {
                self.phase = Phase::Finished;
                Command::Done(self.summary)
            }
        } else if self.executing {
            let a = copy_action(&self.decided[self.index]);
            self.carry_out(a)
        } else {
            self.phase = Phase::Prompting;
            Command::Present(self.index)
        }
    }

    fn settle(&mut self, action: Action, link: &String) -> (r: Command)
        requires
            session_wf(old(self)@),
            deciding_phase(old(self)@.phase),
        ensures
            (final(self)@, r@) == settle(old(self)@, action@, link@),
            session_wf(final(self)@),
    {
        if needs_confirmation(&action) {
            let q = format_confirmation(link.as_str());
            self.phase = Phase::Confirming(action);
            Command::Ask(q)
        } else {
            self.commit(action)
        }
    }

    /// Takes the event that answers the last command and returns the next
    /// command, as `transition` says.
    pub fn step(&mut self, cases: &Vec<RepairCase>, event: Event) -> (r: Command)
        requires
            session_wf(old(self)@),
            cases.len() == old(self)@.count,
            event_kind(event@) == expecting_spec(old(self)@.phase),
        ensures
            (final(self)@, r@) == transition(old(self)@, cases@, event@),
            session_wf(final(self)@),
    {
        match (&self.phase, event) {
            (Phase::Presenting, Event::Ready) => self.begin_case(cases),
            (Phase::Prompting, Event::Ready) => {
                self.phase = Phase::Choosing;
                Command::Ask(text("> "))
            },
            (Phase::Choosing, Event::Line(l)) => {
                let case = &cases[self.index];
                let n = case.candidates.len();
                let parsed = parse_choice(l.as_str(), n);
                let ghost v = choice_verdict(l@, n);
                match parsed {
                    Ok(ParsedInput::SelectCandidate(k)) => {
                        let path = case.candidates[k].path.clone();
                        self.settle(Action::Relink(path), &case.link)
                    },
                    Ok(ParsedInput::Skip) => self.settle(Action::Skip, &case.link),
                    Ok(ParsedInput::Remove) => self.settle(Action::Remove, &case.link),
                    Ok(ParsedInput::CustomPath) => {
                        self.phase = Phase::EnteringPath;
                        Command::Ask(text("  enter path: "))
                    },
                    Err(e) => {
                        let mut msg = String::new();
                        msg.append("  ");
                        let m = e.to_string();
                        msg.append(m.as_str());
                        msg.append("\n");
                        assert(m@ == refusal_text(v));
                        assert(msg@ =~= "  "@ + refusal_text(v) + "\n"@);
                        self.phase = Phase::Prompting;
                        Command::Say(msg)
                    },
                }
            },
            (Phase::EnteringPath, Event::Line(l)) => {
                let cs = chars_of(l.as_str());
                let (lo, hi) = trim_bounds(&cs);
                if lo == hi {
                    self.phase = Phase::Choosing;
                    Command::Ask(text("> "))
                } else {
                    let p = string_of(&cs, lo, hi);
                    let link = &cases[self.index].link;
                    self.settle(Action::Relink(p), link)
                }
            },
            (Phase::Confirming(a), Event::Line(l)) => {
                if parse_confirmation(l.as_str()) {
                    let act = copy_action(a);
                    self.commit(act)
                } else {
                    self.phase = Phase::Choosing;
                    Command::Ask(text("> "))
                }
            },
            (Phase::Applying(a), Event::Applied(res)) => {
                let act = copy_action(a);
                match res {
                    Ok(()) => self.finish(act),
                    Err(m) => {
                        self.summary.record(&Action::Skip);
                        let mut msg = String::new();
                        msg.append("  error: ");
                        msg.append(m.as_str());
                        msg.append("\n");
                        self.phase = Phase::Closing;
                        Command::Say(msg)
                    },
                }
            },
            (Phase::Closing, Event::Ready) => {
                self.index = self.index + 1;
                self.phase = Phase::Presenting;
                Command::Say(text("\n"))
            },
            (Phase::Reviewing, Event::Ready) => {
                self.phase = Phase::Approving;
                Command::Ask(text("apply these changes? [y/N] "))
            },
            (Phase::Approving, Event::Line(l)) => {
                if parse_confirmation(l.as_str()) {
                    self.index = 0;
                    self.executing = true;
                    self.phase = Phase::Presenting;
                    self.begin_case(cases)
                } else {
                    self.summary = Summary { relinked: 0, skipped: self.count, removed: 0 };
                    self.phase = Phase::Ending;
                    Command::Say(text("  no changes applied\n"))
                }
            },
            (Phase::Ending, Event::Ready) => {
                self.phase = Phase::Finished;
                Command::Done(self.summary)
            },
            _ => Command::Done(self.summary),
        }
    }
}

} // verus!
