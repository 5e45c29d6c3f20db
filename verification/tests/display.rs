use unrot::display::{format_actions, format_candidates, format_header, present};
use unrot::fuzzy::ScoredCandidate;
use unrot::model::RepairCase;

fn disable_colors() {
    owo_colors::set_override(false);
}

fn case_with_candidates() -> RepairCase {
    RepairCase::new(
        "/home/user/link".into(),
        "/old/target.txt".into(),
        vec![
            ScoredCandidate {
                path: "/home/user/target.txt".into(),
                score_hundredths: 320,
                shared_dirs: 0,
                basename_count: 2,
            },
            ScoredCandidate {
                path: "/archive/target.txt".into(),
                score_hundredths: 450,
                shared_dirs: 0,
                basename_count: 2,
            },
        ],
    )
}

fn case_without_candidates() -> RepairCase {
    RepairCase::new("/home/user/link".into(), "/old/gone.txt".into(), vec![])
}

fn case_single_candidate() -> RepairCase {
    RepairCase::new(
        "/home/user/link".into(),
        "/old/target.txt".into(),
        vec![ScoredCandidate {
            path: "/home/user/target.txt".into(),
            score_hundredths: 320,
            shared_dirs: 0,
            basename_count: 1,
        }],
    )
}

fn no_devices(case: &RepairCase) -> Vec<u64> {
    vec![0; case.candidates.len()]
}

#[test]
fn header_shows_link_and_target() {
    disable_colors();
    let mut out = String::new();
    format_header(&mut out, &case_with_candidates());
    assert_eq!(out, "/home/user/link -> /old/target.txt\n");
}

#[test]
fn candidates_listed_with_scores() {
    disable_colors();
    let mut out = String::new();
    let case = case_with_candidates();
    format_candidates(&mut out, &case, 0, &no_devices(&case));
    assert!(out.contains("[1] /home/user/target.txt (score: 3.20"));
    assert!(out.contains("[2] /archive/target.txt (score: 4.50"));
    assert!(out.contains("shared dirs"));
    assert!(out.contains("files named target.txt found"));
}

#[test]
fn no_candidates_message() {
    disable_colors();
    let mut out = String::new();
    let case = case_without_candidates();
    format_candidates(&mut out, &case, 0, &no_devices(&case));
    assert_eq!(out, "  no candidates found\n");
}

#[test]
fn actions_with_multiple_candidates() {
    disable_colors();
    let mut out = String::new();
    format_actions(&mut out, &case_with_candidates());
    assert!(out.contains("[1-2] select"));
    assert!(out.contains("[c] custom path"));
    assert!(out.contains("[s] skip"));
    assert!(out.contains("[r] remove"));
}

#[test]
fn actions_with_single_candidate() {
    disable_colors();
    let mut out = String::new();
    format_actions(&mut out, &case_single_candidate());
    assert!(out.contains("[1] select"));
    assert!(!out.contains("[1-1]"));
}

#[test]
fn actions_without_candidates() {
    disable_colors();
    let mut out = String::new();
    format_actions(&mut out, &case_without_candidates());
    assert!(!out.contains("select"));
    assert!(out.contains("[c] custom path"));
    assert!(out.contains("[s] skip"));
    assert!(out.contains("[r] remove"));
}

#[test]
fn present_combines_all_sections() {
    disable_colors();
    let mut out = String::new();
    let case = case_with_candidates();
    present(&mut out, &case, 0, &no_devices(&case));

    let lines: Vec<&str> = out.lines().collect();
    assert!(lines[0].contains("->"));
    assert!(lines[1].contains("[1]"));
    assert!(lines[2].contains("[2]"));
    assert!(lines[3].contains("select"));
}

#[test]
fn candidate_lines_are_exact() {
    disable_colors();
    let mut out = String::new();
    let case = case_with_candidates();
    format_candidates(&mut out, &case, 0, &no_devices(&case));
    assert_eq!(
        out,
        "  [1] /home/user/target.txt (score: 3.20, 0 shared dirs, 2 files named target.txt found)\n  [2] /archive/target.txt (score: 4.50, 0 shared dirs, 2 files named target.txt found)\n"
    );
    let mut single = String::new();
    let case = case_single_candidate();
    format_candidates(&mut single, &case, 0, &no_devices(&case));
    assert_eq!(
        single,
        "  [1] /home/user/target.txt (score: 3.20, 0 shared dirs, only match)\n"
    );
}

#[test]
fn scores_keep_two_decimals() {
    disable_colors();
    let case = RepairCase::new(
        "l".into(),
        "t".into(),
        vec![
            ScoredCandidate { path: "a".into(), score_hundredths: 5, shared_dirs: 12, basename_count: 0 },
            ScoredCandidate { path: "b".into(), score_hundredths: -1234, shared_dirs: 3, basename_count: 1 },
            ScoredCandidate { path: "c".into(), score_hundredths: 100, shared_dirs: 0, basename_count: 1 },
        ],
    );
    let mut out = String::new();
    format_candidates(&mut out, &case, 0, &no_devices(&case));
    assert!(out.contains("[1] a (score: 0.05, 12 shared dirs, only match)"));
    assert!(out.contains("[2] b (score: -12.34, 3 shared dirs, only match)"));
    assert!(out.contains("[3] c (score: 1.00, 0 shared dirs, only match)"));
}

#[test]
fn warnings_follow_their_candidate() {
    disable_colors();
    let case = RepairCase::new(
        "/home/user/link".into(),
        "docs/notes.md".into(),
        vec![
            ScoredCandidate { path: "/srv/notes.md".into(), score_hundredths: 100, shared_dirs: 0, basename_count: 2 },
            ScoredCandidate { path: "other/notes.md".into(), score_hundredths: 90, shared_dirs: 1, basename_count: 2 },
        ],
    );
    let mut out = String::new();
    format_candidates(&mut out, &case, 7, &vec![9, 7]);
    assert_eq!(
        out,
        "  [1] /srv/notes.md (score: 1.00, 0 shared dirs, 2 files named notes.md found)\n      ⚠ was relative, would become absolute\n      ⚠ cross-filesystem (link and target on different mounts)\n  [2] other/notes.md (score: 0.90, 1 shared dirs, 2 files named notes.md found)\n"
    );
}

#[test]
fn many_candidates_are_numbered_in_order() {
    disable_colors();
    let candidates: Vec<ScoredCandidate> = (0..12)
        .map(|i| ScoredCandidate { path: format!("/p{i}"), score_hundredths: i, shared_dirs: 0, basename_count: 1 })
        .collect();
    let case = RepairCase::new("/l".into(), "/t".into(), candidates);
    let mut out = String::new();
    format_actions(&mut out, &case);
    assert_eq!(out, "  [1-12] select  [c] custom path  [s] skip  [r] remove\n");
    let mut list = String::new();
    format_candidates(&mut list, &case, 0, &no_devices(&case));
    assert!(list.contains("  [12] /p11 (score: 0.11"));
}


#[test]
fn present_is_header_candidates_actions() {
    disable_colors();
    let case = case_with_candidates();
    let devs = no_devices(&case);
    let mut h = String::new();
    format_header(&mut h, &case);
    let mut c = String::new();
    format_candidates(&mut c, &case, 0, &devs);
    let mut a = String::new();
    format_actions(&mut a, &case);
    let mut w = String::from("before\n");
    present(&mut w, &case, 0, &devs);
    assert_eq!(w, format!("before\n{h}{c}{a}"));
}
