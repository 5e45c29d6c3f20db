use std::path::Path;
use unrot::fuzzy::{
    find_candidates, prunes, rank_candidates, repair_case, score_candidates, BrokenSymlink, ScoredCandidate,
    WalkEntry,
};

const ROOT: &str = "/tmp/.tmpQ1w2e3";

/// The entries a walk of `ROOT` meets, given paths below it.
fn walk(rel: &[&str]) -> Vec<WalkEntry> {
    let mut entries = vec![WalkEntry { path: ROOT.to_string(), name: ".tmpQ1w2e3".to_string() }];
    for r in rel {
        let path = format!("{ROOT}/{r}");
        let name = Path::new(&path).file_name().unwrap().to_str().unwrap().to_string();
        entries.push(WalkEntry { path, name });
    }
    entries
}

fn broken(link: &str, target: &str) -> BrokenSymlink {
    BrokenSymlink { link: link.to_string(), target: target.to_string() }
}

#[test]
fn exact_match_found() {
    let link = format!("{ROOT}/my_link");
    let entries = walk(&["my_link", "target.txt"]);
    let found = find_candidates(&broken(&link, "target.txt"), ROOT, &vec![], &entries);
    assert!(
        found.iter().any(|p| Path::new(p).ends_with("target.txt")),
        "should find the new candidate with the same name"
    );
}

#[test]
fn no_candidates_when_nothing_matches() {
    let entries = walk(&["unrelated.txt"]);
    let found = find_candidates(&broken(&format!("{ROOT}/my_link"), "gone.txt"), ROOT, &vec![], &entries);
    assert!(found.is_empty());
}

#[test]
fn partial_match_found() {
    let entries = walk(&["config.yml.bak"]);
    let found = find_candidates(&broken(&format!("{ROOT}/my_link"), "config.yml"), ROOT, &vec![], &entries);
    assert!(
        found.iter().any(|p| Path::new(p).ends_with("config.yml.bak")),
        "should find partial match"
    );
}

#[test]
fn exact_before_partial() {
    let entries = walk(&["data.json.bak", "sub", "sub/data.json"]);
    let found = find_candidates(&broken(&format!("{ROOT}/my_link"), "data.json"), ROOT, &vec![], &entries);
    assert!(found.len() >= 2, "should find both exact and partial");

    let exact_pos = found.iter().position(|p| Path::new(p).ends_with("data.json")).unwrap();
    let partial_pos = found
        .iter()
        .position(|p| Path::new(p).ends_with("data.json.bak"))
        .unwrap();
    assert!(exact_pos < partial_pos, "exact matches should come before partial");
}

#[test]
fn skips_the_broken_link_itself() {
    let link_path = format!("{ROOT}/config.yml");
    let entries = walk(&["config.yml", "sub_config.yml"]);
    let found = find_candidates(&broken(&link_path, "config.yml"), ROOT, &vec![], &entries);
    assert!(!found.contains(&link_path), "should not suggest the broken link itself");
}

#[test]
fn no_filename_returns_empty() {
    let entries = walk(&["a", "b.txt"]);
    let found = find_candidates(&broken(&format!("{ROOT}/my_link"), ""), ROOT, &vec![], &entries);
    assert!(found.is_empty());
}

#[test]
fn multiple_exact_matches() {
    let entries = walk(&["a", "a/notes.md", "b", "b/notes.md"]);
    let found = find_candidates(&broken(&format!("{ROOT}/my_link"), "notes.md"), ROOT, &vec![], &entries);
    let exact_count = found.iter().filter(|p| Path::new(p).ends_with("notes.md")).count();
    assert_eq!(exact_count, 2, "should find both exact matches");
}

#[test]
fn link_written_differently_is_still_skipped() {
    let entries = walk(&["config.yml", "other/config.yml"]);
    let found = find_candidates(&broken("/tmp//.tmpQ1w2e3/./config.yml/", "x/config.yml"), ROOT, &vec![], &entries);
    assert_eq!(found, vec![format!("{ROOT}/other/config.yml")]);
}

#[test]
fn exact_then_partial_in_walk_order() {
    let entries = walk(&["app.log.1", "app.log", "app", "logs/app.log", "pp.lo"]);
    let found = find_candidates(&broken("/elsewhere/link", "/var/log/app.log"), ROOT, &vec![], &entries);
    assert_eq!(
        found,
        vec![
            format!("{ROOT}/app.log"),
            format!("{ROOT}/logs/app.log"),
            format!("{ROOT}/app.log.1"),
            format!("{ROOT}/app"),
            format!("{ROOT}/pp.lo"),
        ]
    );
}

#[test]
fn targets_without_a_name_have_no_candidates() {
    let entries = walk(&["x", "y"]);
    for target in ["/", "..", "a/..", ".", "./"] {
        assert!(find_candidates(&broken("/l", target), ROOT, &vec![], &entries).is_empty(), "{target}");
    }
    // A trailing separator or `.` still leaves a name.
    let found = find_candidates(&broken("/l", "dir/x/."), ROOT, &vec![], &walk(&["x"]));
    assert_eq!(found, vec![format!("{ROOT}/x")]);
}

#[test]
fn scores_weigh_name_depth_and_shared_directories() {
    let paths = vec![
        "/srv/old/notes.md".to_string(),
        "/a/b/c/notes.md".to_string(),
        "/srv/notes.txt".to_string(),
        "notes.md".to_string(),
    ];
    let scored = score_candidates("/srv/old/notes.md", &paths);
    // distance 0, depth 3 (/, srv, old), shares 3 directories
    assert_eq!(scored[0].score_hundredths, 0 + 30 - 150);
    assert_eq!(scored[0].shared_dirs, 3);
    // distance 0, depth 4, shares only the root
    assert_eq!(scored[1].score_hundredths, 40 - 50);
    assert_eq!(scored[1].shared_dirs, 1);
    // distance 3 (md -> txt takes three edits), depth 2, shares / and srv
    assert_eq!(scored[2].score_hundredths, 300 + 20 - 100);
    // no directory at all
    assert_eq!(scored[3].score_hundredths, 0);
    assert_eq!(scored[3].shared_dirs, 0);
    for c in &scored {
        assert_eq!(c.basename_count, 3);
    }
}

#[test]
fn repair_case_ranks_best_first() {
    let entries = walk(&["deep", "deep/er", "deep/er/data.json", "data.json.bak", "data.json"]);
    let case = repair_case(&broken(&format!("{ROOT}/my_link"), "data.json"), ROOT, &vec![], &entries);
    let order: Vec<&str> = case.candidates.iter().map(|c| c.path.as_str()).collect();
    assert_eq!(
        order,
        vec![
            format!("{ROOT}/data.json").as_str(),
            format!("{ROOT}/deep/er/data.json").as_str(),
            format!("{ROOT}/data.json.bak").as_str(),
        ]
    );
    let scores: Vec<i64> = case.candidates.iter().map(|c| c.score_hundredths).collect();
    assert!(scores.windows(2).all(|w| w[0] <= w[1]));
    assert!(case.candidates.iter().all(|c| c.basename_count == 2));
}

#[test]
fn equal_scores_keep_walk_order() {
    let mk = |p: &str, s: i64| ScoredCandidate { path: p.to_string(), score_hundredths: s, shared_dirs: 0, basename_count: 0 };
    let ranked = rank_candidates(vec![mk("a", 5), mk("b", 1), mk("c", 5), mk("d", 1), mk("e", -3)]);
    let order: Vec<&str> = ranked.iter().map(|c| c.path.as_str()).collect();
    assert_eq!(order, vec!["e", "b", "d", "a", "c"]);
}

#[test]
fn nothing_in_ignored_directories_is_offered() {
    let ignore = vec![".git".to_string(), "node_modules".to_string()];
    let entries = walk(&[
        ".git",
        ".git/notes.md",
        "node_modules",
        "node_modules/pkg/notes.md",
        "docs",
        "docs/notes.md",
        "notes.md.git",
    ]);
    let found = find_candidates(&broken("/l", "notes.md"), ROOT, &ignore, &entries);
    assert_eq!(found, vec![format!("{ROOT}/docs/notes.md"), format!("{ROOT}/notes.md.git")]);
    // The root itself may have an ignored name: only what lies below it counts.
    let root = "/work/.git";
    let inside = vec![WalkEntry { path: format!("{root}/a/notes.md"), name: "notes.md".to_string() }];
    assert_eq!(find_candidates(&broken("/l", "notes.md"), root, &ignore, &inside).len(), 1);
}

#[test]
fn walks_stop_at_ignored_names_below_the_root() {
    let ignore = vec![".git".to_string()];
    assert!(prunes(1, ".git", &ignore));
    assert!(prunes(3, ".git", &ignore));
    assert!(!prunes(0, ".git", &ignore));
    assert!(!prunes(1, ".github", &ignore));
}
