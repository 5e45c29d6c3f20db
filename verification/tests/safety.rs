use std::collections::HashMap;
use unrot::safety::{format_warnings, relink_warnings, LinkProbe, LoopCheck, LoopStep, RelinkWarning};

/// What lives at each path: `Some(target)` for a link, `None` for a file.
type Fs<'a> = HashMap<&'a str, Option<&'a str>>;

fn would_create_loop(fs: &Fs, link: &str, new_target: &str) -> bool {
    let mut check = LoopCheck::new(link, new_target);
    loop {
        match check.next_step() {
            LoopStep::Verdict(b) => return b,
            LoopStep::Inspect(p) => {
                let probe = match fs.get(p.as_str()) {
                    None => LinkProbe::Unreadable,
                    Some(None) => LinkProbe::NotSymlink,
                    Some(Some(t)) => LinkProbe::Symlink(t.to_string()),
                };
                if let Some(b) = check.observe(probe) {
                    return b;
                }
            }
        }
    }
}

#[test]
fn loop_a_to_b_to_a() {
    let mut fs: Fs = HashMap::new();
    fs.insert("/tmp/t/a", Some("/tmp/t/b"));
    fs.insert("/tmp/t/b", Some("/tmp/t/a"));
    assert!(would_create_loop(&fs, "/tmp/t/a", "/tmp/t/b"));
    assert!(would_create_loop(&fs, "/tmp/t/b", "/tmp/t/a"));
}

#[test]
fn no_loop_simple_relink() {
    let mut fs: Fs = HashMap::new();
    fs.insert("/tmp/t/link", Some("/nonexistent"));
    fs.insert("/tmp/t/target", None);
    assert!(!would_create_loop(&fs, "/tmp/t/link", "/tmp/t/target"));
}

#[test]
fn relative_to_absolute_warning() {
    let w = relink_warnings("../foo", "/tmp/t/target", 0, 0);
    assert!(w.iter().any(|x| matches!(x, RelinkWarning::RelativeToAbsolute)));
}

#[test]
fn relative_links_are_followed_from_their_directory() {
    let mut fs: Fs = HashMap::new();
    fs.insert("/d/x", Some("y"));
    fs.insert("/d/y", Some("link"));
    assert!(would_create_loop(&fs, "/d/link", "/d/x"));
    let mut fs2: Fs = HashMap::new();
    fs2.insert("/d/x", Some("y"));
    fs2.insert("/d/y", None);
    assert!(!would_create_loop(&fs2, "/d/link", "/d/x"));
}

#[test]
fn a_cycle_that_avoids_the_link_is_a_loop() {
    let mut fs: Fs = HashMap::new();
    fs.insert("/c/p", Some("q"));
    fs.insert("/c/q", Some("/c//p"));
    assert!(would_create_loop(&fs, "/c/link", "/c/p"));
}

#[test]
fn pointing_a_link_at_itself_is_a_loop() {
    let fs: Fs = HashMap::new();
    assert!(would_create_loop(&fs, "/a/b", "/a/./b/"));
}

#[test]
fn long_chains_give_up_without_a_loop() {
    let names: Vec<String> = (0..100).map(|i| format!("/n/{i}")).collect();
    let targets: Vec<String> = (1..101).map(|i| format!("/n/{i}")).collect();
    let mut fs: Fs = HashMap::new();
    for i in 0..100 {
        fs.insert(names[i].as_str(), Some(targets[i].as_str()));
    }
    assert!(!would_create_loop(&fs, "/n/99", "/n/0"));
    assert!(would_create_loop(&fs, "/n/50", "/n/0"));
}

#[test]
fn direction_and_device_warnings() {
    assert_eq!(relink_warnings("/a", "b", 0, 0), vec![RelinkWarning::AbsoluteToRelative]);
    assert_eq!(relink_warnings("a", "b", 1, 2), vec![RelinkWarning::CrossFilesystem { link_dev: 1, target_dev: 2 }]);
    assert_eq!(relink_warnings("a", "b", 0, 2), vec![]);
    assert_eq!(relink_warnings("/a", "/b", 3, 3), vec![]);
    assert_eq!(
        relink_warnings("a", "/b", 4, 5),
        vec![RelinkWarning::RelativeToAbsolute, RelinkWarning::CrossFilesystem { link_dev: 4, target_dev: 5 }]
    );
}

#[test]
fn warnings_render_one_line_each() {
    let text = format_warnings(&vec![
        RelinkWarning::CrossFilesystem { link_dev: 1, target_dev: 2 },
        RelinkWarning::RelativeToAbsolute,
        RelinkWarning::AbsoluteToRelative,
    ]);
    assert_eq!(
        text,
        "      ⚠ cross-filesystem (link and target on different mounts)\n      ⚠ was relative, would become absolute\n      ⚠ was absolute, would become relative\n"
    );
    assert_eq!(format_warnings(&vec![]), "");
}

#[test]
fn warnings_text_is_line_by_line() {
    let a = vec![RelinkWarning::RelativeToAbsolute, RelinkWarning::CrossFilesystem { link_dev: 1, target_dev: 2 }];
    let b = vec![RelinkWarning::AbsoluteToRelative];
    let both: Vec<RelinkWarning> = [a.clone(), b.clone()].concat();
    assert_eq!(format_warnings(&both), format_warnings(&a) + &format_warnings(&b));
    assert_eq!(format_warnings(&both).lines().count(), 3);
    assert!(format_warnings(&both).ends_with('\n'));
}
