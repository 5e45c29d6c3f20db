use std::collections::VecDeque;
use unrot::fuzzy::ScoredCandidate;
use unrot::model::{Action, RepairCase, Summary};
use unrot::session::{Command, Event, Session};

/// What a scripted run did: the text written, the actions carried out (on
/// which case), and the final counts.
struct Run {
    output: String,
    applied: Vec<(usize, String)>,
    summary: Summary,
}

fn describe(a: &Action) -> String {
    match a {
        Action::Relink(t) => format!("relink {t}"),
        Action::Skip => "skip".to_string(),
        Action::Remove => "remove".to_string(),
    }
}

/// Drives a session over `cases` with the given answers; `fail` makes the
/// file system refuse every action.
fn run(cases: &Vec<RepairCase>, answers: &[&str], dry_run: bool, fail: bool) -> Run {
    run_in(cases, answers, dry_run, false, fail)
}

fn run_in(cases: &Vec<RepairCase>, answers: &[&str], dry_run: bool, batch: bool, fail: bool) -> Run {
    owo_colors::set_override(false);
    let mut inputs: VecDeque<String> = answers.iter().map(|s| s.to_string()).collect();
    let mut session = Session::new(cases.len(), dry_run, batch);
    let mut out = String::new();
    let mut applied = Vec::new();
    let mut event = Event::Ready;
    loop {
        match session.step(cases, event) {
            Command::Present(i) => {
                let devs = vec![0; cases[i].candidates.len()];
                unrot::display::present(&mut out, &cases[i], 0, &devs);
                event = Event::Ready;
            }
            Command::Say(t) => {
                out.push_str(&t);
                event = Event::Ready;
            }
            Command::Ask(t) => {
                out.push_str(&t);
                let line = inputs.pop_front().expect("no more scripted answers");
                event = Event::Line(line);
            }
            Command::Apply(a) => {
                applied.push((session.current(), describe(&a)));
                event = Event::Applied(if fail { Err("permission denied".to_string()) } else { Ok(()) });
            }
            Command::Done(summary) => return Run { output: out, applied, summary },
        }
    }
}

fn one_case() -> Vec<RepairCase> {
    vec![RepairCase::new(
        "/t/my_link".into(),
        "/nonexistent".into(),
        vec![ScoredCandidate { path: "/t/candidate.txt".into(), score_hundredths: 320, shared_dirs: 0, basename_count: 1 }],
    )]
}

#[test]
fn select_candidate_relinks() {
    let r = run(&one_case(), &["1"], false, false);
    assert_eq!(r.summary.relinked, 1);
    assert_eq!(r.applied, vec![(0, "relink /t/candidate.txt".to_string())]);
    assert!(r.output.contains("relinked -> /t/candidate.txt"));
}

#[test]
fn skip_leaves_link_intact() {
    let r = run(&one_case(), &["s"], false, false);
    assert_eq!(r.summary.skipped, 1);
    assert_eq!(r.summary.total(), 1);
    assert_eq!(r.applied, vec![(0, "skip".to_string())]);
}

#[test]
fn remove_with_confirmation() {
    let r = run(&one_case(), &["r", "y"], false, false);
    assert_eq!(r.summary.removed, 1);
    assert_eq!(r.applied, vec![(0, "remove".to_string())]);
    assert!(r.output.contains("removed"));
    assert!(r.output.contains("  remove /t/my_link? [y/N] "));
}

#[test]
fn remove_declined_then_skip() {
    let r = run(&one_case(), &["r", "n", "s"], false, false);
    assert_eq!(r.summary.skipped, 1);
    assert_eq!(r.summary.removed, 0);
    assert_eq!(r.applied, vec![(0, "skip".to_string())]);
}

#[test]
fn invalid_input_retries() {
    let r = run(&one_case(), &["xyz", "9", "", "s"], false, false);
    assert_eq!(r.summary.skipped, 1);
    assert!(r.output.contains("  unrecognized input: xyz\n"));
    assert!(r.output.contains("  selection 9 is out of range (1-1)\n"));
    assert!(r.output.contains("  no input provided\n"));
}

#[test]
fn custom_path_relinks() {
    let r = run(&one_case(), &["c", "  /t/custom.txt \n"], false, false);
    assert_eq!(r.summary.relinked, 1);
    assert_eq!(r.applied, vec![(0, "relink /t/custom.txt".to_string())]);
    assert!(r.output.contains("  enter path: "));
}

#[test]
fn empty_custom_path_retries() {
    let r = run(&one_case(), &["c", "   ", "s"], false, false);
    assert_eq!(r.summary.skipped, 1);
    assert_eq!(r.applied, vec![(0, "skip".to_string())]);
}

#[test]
fn dry_run_no_changes() {
    let r = run(&one_case(), &["1"], true, false);
    assert_eq!(r.summary.relinked, 1);
    assert!(r.applied.is_empty());
    assert!(r.output.contains("[dry run]"));
    assert!(r.output.contains("  [dry run] would relink -> /t/candidate.txt\n"));
}

#[test]
fn multiple_cases_tally_summary() {
    let mut cases = one_case();
    cases.push(RepairCase::new("/t/link2".into(), "/nonexistent".into(), vec![]));
    let r = run(&cases, &["1", "s"], false, false);
    assert_eq!(r.summary.relinked, 1);
    assert_eq!(r.summary.skipped, 1);
    assert_eq!(r.summary.total(), 2);
    assert_eq!(r.applied, vec![(0, "relink /t/candidate.txt".to_string()), (1, "skip".to_string())]);
}

#[test]
fn session_failed_action_counts_as_skip() {
    let r = run(&one_case(), &["1"], false, true);
    assert_eq!(r.summary.skipped, 1);
    assert_eq!(r.summary.relinked, 0);
    assert!(r.output.contains("  error: permission denied\n"));
}

#[test]
fn session_output_is_exact() {
    let r = run(&one_case(), &["x", "1"], false, false);
    assert_eq!(
        r.output,
        "/t/my_link -> /nonexistent\n  [1] /t/candidate.txt (score: 3.20, 0 shared dirs, only match)\n  [1] select  [c] custom path  [s] skip  [r] remove\n>   unrecognized input: x\n>   relinked -> /t/candidate.txt\n\n"
    );
}

#[test]
fn session_with_no_cases_is_done_at_once() {
    let r = run(&vec![], &[], false, false);
    assert_eq!(r.summary.total(), 0);
    assert_eq!(r.output, "");
    assert_eq!(r.summary.to_string(), "0 relinked, 0 skipped, 0 removed");
}

#[test]
fn session_dry_run_removal_still_asks_for_confirmation() {
    let r = run(&one_case(), &["r", "yes"], true, false);
    assert_eq!(r.summary.removed, 1);
    assert!(r.applied.is_empty());
    assert!(r.output.contains("  remove /t/my_link? [y/N] "));
    assert!(r.output.contains("  [dry run] would remove\n"));
}

fn two_cases() -> Vec<RepairCase> {
    let mut cases = one_case();
    cases.push(RepairCase::new("/t/link2".into(), "/nonexistent".into(), vec![]));
    cases
}

#[test]
fn batch_applies_only_after_final_confirmation() {
    let r = run_in(&two_cases(), &["1", "r", "y", "y"], false, true, false);
    assert_eq!(
        r.applied,
        vec![(0, "relink /t/candidate.txt".to_string()), (1, "remove".to_string())]
    );
    assert_eq!(r.summary.relinked, 1);
    assert_eq!(r.summary.removed, 1);
    let review = "  /t/my_link: relink -> /t/candidate.txt\n  /t/link2: remove\napply these changes? [y/N] ";
    let at = r.output.find(review).expect("review is written");
    assert!(!r.output[..at].contains("relinked"));
    assert!(r.output[at..].contains("  relinked -> /t/candidate.txt\n"));
    assert!(r.output[at..].contains("  removed\n"));
}

#[test]
fn batch_declined_changes_nothing() {
    let r = run_in(&two_cases(), &["1", "s", "n"], false, true, false);
    assert!(r.applied.is_empty());
    assert_eq!(r.summary.skipped, 2);
    assert_eq!(r.summary.total(), 2);
    assert!(r.output.ends_with("apply these changes? [y/N]   no changes applied\n"));
}

#[test]
fn batch_dry_run_reports_without_changes() {
    let r = run_in(&one_case(), &["1", "yes"], true, true, false);
    assert!(r.applied.is_empty());
    assert_eq!(r.summary.relinked, 1);
    assert!(r.output.contains("  [dry run] would relink -> /t/candidate.txt\n"));
}

#[test]
fn batch_with_no_cases_asks_nothing() {
    let r = run_in(&vec![], &[], false, true, false);
    assert_eq!(r.output, "");
    assert_eq!(r.summary.total(), 0);
}
