use unrot::display::{format_actions, format_header};
use unrot::model::RepairCase;

#[test]
fn colours_wrap_highlighted_parts() {
    owo_colors::with_override(true, || {
        let mut out = String::new();
        let case = RepairCase::new("/home/user/link".into(), "/old/target.txt".into(), vec![]);
        format_header(&mut out, &case);
        assert_eq!(
            out,
            "\u{1b}[31m/home/user/link\u{1b}[39m -> \u{1b}[31m/old/target.txt\u{1b}[39m\n"
        );
    });
}

#[test]
fn colours_wrap_the_actions_line() {
    owo_colors::with_override(true, || {
        let case = RepairCase::new("/l".into(), "/t".into(), vec![]);
        let mut out = String::new();
        format_actions(&mut out, &case);
        assert_eq!(
            out,
            "  \u{1b}[36m[c] custom path  [s] skip  [r] remove\u{1b}[39m\n"
        );
    });
}
