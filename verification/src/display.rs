//! Rendering of a repair case: the header with the link and its dead target,
//! the numbered candidates with their scores and warnings, and the actions
//! on offer. Highlighting follows whether standard output takes colours.

use vstd::prelude::*;
use owo_colors::{OwoColorize, Stream};
use crate::fuzzy::ScoredCandidate;
use crate::model::RepairCase;
use crate::path::{file_name, file_name_spec};
use crate::safety::{format_warnings, relink_warnings, warnings_spec, warnings_text};
use crate::text::{decimal, digit_char, push_chars, push_decimal, decimal_string};

verus! {

/// The colours that the rendering uses.
#[derive(Clone, Copy)]
pub enum Color {
    Red,
    Green,
    Yellow,
    Cyan,
}

/// The escape sequence that switches the foreground to `c`.
pub open spec fn ansi_code(c: Color) -> Seq<char> {
    match c {
        Color::Red => seq!['\x1b', '[', '3', '1', 'm'],
        Color::Green => seq!['\x1b', '[', '3', '2', 'm'],
        Color::Yellow => seq!['\x1b', '[', '3', '3', 'm'],
        Color::Cyan => seq!['\x1b', '[', '3', '6', 'm'],
    }
}

/// The escape sequence that restores the default foreground.
pub open spec fn ansi_reset() -> Seq<char> {
    seq!['\x1b', '[', '3', '9', 'm']
}

/// `text` in colour `c` when `on`, else `text` as it is.
pub open spec fn styled(text: Seq<char>, c: Color, on: bool) -> Seq<char> {
    if on {
        ansi_code(c) + text + ansi_reset()
    } else {
        text
    }
}

/// `text` in the foreground colour `color` when standard output takes
/// colours (owo-colors' `if_supports_color` with `Stream::Stdout`).
///
/// The result is `text` wrapped in the colour's escape sequence and the
/// reset sequence, or `text` unchanged; which of the two is not stated, as it
/// rests on the override that owo-colors holds, on the environment and on
/// whether standard output is a terminal.
#[verifier::external_body]
fn paint(text: &str, color: Color) -> (r: String)
    ensures
        r@ == styled(text@, color, true) || r@ == styled(text@, color, false),
{
    match color {
        Color::Red => text.if_supports_color(Stream::Stdout, <&str as OwoColorize>::red).to_string(),
        Color::Green => text.if_supports_color(Stream::Stdout, <&str as OwoColorize>::green).to_string(),
        Color::Yellow => text.if_supports_color(Stream::Stdout, <&str as OwoColorize>::yellow).to_string(),
        Color::Cyan => text.if_supports_color(Stream::Stdout, <&str as OwoColorize>::cyan).to_string(),
    }
}

/// Appends `text` painted in `color`; `on` tells whether colour was used.
fn push_painted(w: &mut String, text: &str, color: Color) -> (on: Ghost<bool>)
    ensures
        final(w)@ == old(w)@ + styled(text@, color, on@),
{
    let p = paint(text, color);
    let ghost on = p@ == styled(text@, color, true);
    w.append(p.as_str());
    Ghost(on)
}

// ---------------------------------------------------------------------------
// Header
// ---------------------------------------------------------------------------

/// `link -> target` on one line, both in red where colour is used.
pub open spec fn header_text(case: &RepairCase, on_link: bool, on_target: bool) -> Seq<char> {
    styled(case.link@, Color::Red, on_link) + " -> "@ + styled(
        case.original_target@,
        Color::Red,
        on_target,
    ) + "\n"@
}

/// Writes the header line of `case`: the link and the target it had.
pub fn format_header(w: &mut String, case: &RepairCase)
    ensures
        exists|a: bool, b: bool| final(w)@ == old(w)@ + #[trigger] header_text(case, a, b),
{
    let a = push_painted(w, case.link.as_str(), Color::Red);
    w.append(" -> ");
    let b = push_painted(w, case.original_target.as_str(), Color::Red);
    w.append("\n");
    assert(w@ =~= old(w)@ + header_text(case, a@, b@));
}

// ---------------------------------------------------------------------------
// Candidates
// ---------------------------------------------------------------------------

/// `|h|` for a score in hundredths.
pub open spec fn magnitude(h: i64) -> nat {
    if h < 0 {
        (-h) as nat
    } else {
        h as nat
    }
}

/// A score in hundredths written with two decimals (`{:.2}`).
pub open spec fn score_text(h: i64) -> Seq<char> {
    let m = magnitude(h);
    (if h < 0 {
        seq!['-']
    } else {
        Seq::empty()
    }) + decimal(m / 100) + seq!['.', digit_char((m % 100) / 10), digit_char(m % 10)]
}

/// The final name of the original target, or nothing when it has none.
pub open spec fn target_basename(case: &RepairCase) -> Seq<char> {
    match file_name_spec(case.original_target@) {
        Some(n) => n,
        None => Seq::empty(),
    }
}

/// How many files share the target's name, in words.
pub open spec fn basename_note(case: &RepairCase, c: ScoredCandidate) -> Seq<char> {
    if c.basename_count <= 1 {
        "only match"@
    } else {
        decimal(c.basename_count as nat) + " files named "@ + target_basename(case) + " found"@
    }
}

/// The warning block under candidate `c`: nothing when there is no warning.
pub open spec fn warning_block(
    case: &RepairCase,
    c: ScoredCandidate,
    link_dev: u64,
    target_dev: u64,
    on: bool,
) -> Seq<char> {
    let ws = warnings_spec(case.original_target@, c.path@, link_dev, target_dev);
    if ws.len() == 0 {
        Seq::empty()
    } else {
        styled(warnings_text(ws), Color::Yellow, on)
    }
}

/// The start of the entry for candidate number `i + 1` at `path`, with the
/// number and the path highlighted where `on_num` and `on_path` say.
pub open spec fn entry_head(i: int, path: Seq<char>, on_num: bool, on_path: bool) -> Seq<char> {
    "  ["@ + styled(decimal((i + 1) as nat), Color::Cyan, on_num) + "] "@ + styled(
        path,
        Color::Green,
        on_path,
    ) + " (score: "@
}

/// The rest of the entry line for `c`: score, shared directories and how
/// many files share the target's name.
pub open spec fn entry_details(case: &RepairCase, c: ScoredCandidate) -> Seq<char> {
    score_text(c.score_hundredths) + ", "@ + decimal(c.shared_dirs as nat) + " shared dirs, "@
        + basename_note(case, c) + ")\n"@
}

/// The entry for candidate `i`: its one-based number, path, score, shared
/// directories and name count, then its warnings; `on` tells where colour
/// was used (number, path, warnings).
pub open spec fn candidate_entry(
    case: &RepairCase,
    i: int,
    link_dev: u64,
    target_dev: u64,
    on: (bool, bool, bool),
) -> Seq<char> {
    let c = case.candidates@[i];
    entry_head(i, c.path@, on.0, on.1) + entry_details(case, c) + warning_block(
        case,
        c,
        link_dev,
        target_dev,
        on.2,
    )
}

/// The entries for the first `k` candidates.
pub open spec fn candidate_entries(
    case: &RepairCase,
    link_dev: u64,
    target_devs: Seq<u64>,
    on: Seq<(bool, bool, bool)>,
    k: nat,
) -> Seq<char>
    decreases k,
{
    if k == 0 {
        Seq::empty()
    } else {
        candidate_entries(case, link_dev, target_devs, on, (k - 1) as nat) + candidate_entry(
            case,
            k - 1,
            link_dev,
            target_devs[k - 1],
            on[k - 1],
        )
    }
}

/// The candidate list of `case`, or a note that there is none.
pub open spec fn candidates_text(
    case: &RepairCase,
    link_dev: u64,
    target_devs: Seq<u64>,
    on: Seq<(bool, bool, bool)>,
    on_none: bool,
) -> Seq<char> {
    if case.candidates@.len() == 0 {
        "  "@ + styled("no candidates found"@, Color::Yellow, on_none) + "\n"@
    } else {
        candidate_entries(case, link_dev, target_devs, on, case.candidates@.len())
    }
}

/// Every candidate's entry, not only the first, is its numbered line
/// followed by the warnings for relinking to that candidate: the entries of
/// the first `k` candidates are those of the first `k - 1`, then the line of
/// candidate `k - 1` (number `k`, path, score, shared directories, name
/// count), then, when relinking to it gives warnings, their lines (in yellow
/// where colour is used). With colour off, that is the plain line
/// `  [k] path (score: s, d shared dirs, note)` and the plain warning lines.
pub proof fn lemma_entry_carries_its_warnings(
    case: &RepairCase,
    link_dev: u64,
    target_devs: Seq<u64>,
    on: Seq<(bool, bool, bool)>,
    k: nat,
)
    requires
        0 < k <= case.candidates@.len(),
        k <= target_devs.len(),
        k <= on.len(),
    ensures
        ({
            let c = case.candidates@[k - 1];
            let ws = warnings_spec(case.original_target@, c.path@, link_dev, target_devs[k - 1]);
            let before = candidate_entries(case, link_dev, target_devs, on, (k - 1) as nat);
            &&& candidate_entries(case, link_dev, target_devs, on, k) == before + entry_head(
                k - 1,
                c.path@,
                on[k - 1].0,
                on[k - 1].1,
            ) + entry_details(case, c) + (if ws.len() > 0 {
                styled(warnings_text(ws), Color::Yellow, on[k - 1].2)
            } else {
                Seq::empty()
            })
            &&& (!on[k - 1].0 && !on[k - 1].1 && !on[k - 1].2) ==> candidate_entries(
                case,
                link_dev,
                target_devs,
                on,
                k,
            ) == before + "  ["@ + decimal(k) + "] "@ + c.path@ + " (score: "@ + score_text(
                c.score_hundredths,
            ) + ", "@ + decimal(c.shared_dirs as nat) + " shared dirs, "@ + basename_note(case, c)
                + ")\n"@ + warnings_text(ws)
        }),
{
    let c = case.candidates@[k - 1];
    let ws = warnings_spec(case.original_target@, c.path@, link_dev, target_devs[k - 1]);
    crate::safety::lemma_warnings_text_lines(ws, ws);
    let before = candidate_entries(case, link_dev, target_devs, on, (k - 1) as nat);
    if !on[k - 1].0 && !on[k - 1].1 && !on[k - 1].2 {
        assert(candidate_entries(case, link_dev, target_devs, on, k) =~= before + "  ["@ + decimal(
            k,
        ) + "] "@ + c.path@ + " (score: "@ + score_text(c.score_hundredths) + ", "@ + decimal(
            c.shared_dirs as nat,
        ) + " shared dirs, "@ + basename_note(case, c) + ")\n"@ + warnings_text(ws));
    }
}

proof fn lemma_entries_prefix(
    case: &RepairCase,
    link_dev: u64,
    target_devs: Seq<u64>,
    on: Seq<(bool, bool, bool)>,
    more: Seq<(bool, bool, bool)>,
    k: nat,
)
    requires
        k <= on.len(),
    ensures
        candidate_entries(case, link_dev, target_devs, on + more, k) == candidate_entries(
            case,
            link_dev,
            target_devs,
            on,
            k,
        ),
    decreases k,
{
    if k > 0 {
        lemma_entries_prefix(case, link_dev, target_devs, on, more, (k - 1) as nat);
        assert((on + more)[k - 1] == on[k - 1]);
    }
}

/// Appends a score in hundredths with two decimals.
fn push_score(w: &mut String, h: i64)
    ensures
        final(w)@ == old(w)@ + score_text(h),
{
    let m: u64 = if h < 0 {
        (-(h as i128)) as u64
    } else {
        h as u64
    };
    assert(m == magnitude(h));
    let ghost start = w@;
    if h < 0 {
        crate::text::push_char(w, '-');
    }
    push_decimal(w, m / 100);
    crate::text::push_char(w, '.');
    push_decimal(w, (m % 100) / 10);
    push_decimal(w, m % 10);
    assert(w@ =~= start + score_text(h));
}

fn push_entry_head(w: &mut String, i: usize, path: &String) -> (flags: Ghost<(bool, bool)>)
    requires
        i + 1 <= u64::MAX,
    ensures
        final(w)@ == old(w)@ + entry_head(i as int, path@, flags@.0, flags@.1),
{
    w.append("  [");
    let num = decimal_string(i as u64 + 1);
    let f0 = push_painted(w, num.as_str(), Color::Cyan);
    w.append("] ");
    let f1 = push_painted(w, path.as_str(), Color::Green);
    w.append(" (score: ");
    assert(w@ =~= old(w)@ + entry_head(i as int, path@, f0@, f1@));
    Ghost((f0@, f1@))
}

fn push_entry_details(w: &mut String, case: &RepairCase, c: &ScoredCandidate, basename: &Vec<char>)
    requires
        basename@ == target_basename(case),
    ensures
        final(w)@ == old(w)@ + entry_details(case, *c),
{
    push_score(w, c.score_hundredths);
    w.append(", ");
    push_decimal(w, c.shared_dirs as u64);
    w.append(" shared dirs, ");
    let ghost mid = w@;
    if c.basename_count <= 1 {
        w.append("only match");
    } else {
        push_decimal(w, c.basename_count as u64);
        w.append(" files named ");
        push_chars(w, basename, 0, basename.len());
        assert(basename@.subrange(0, basename@.len() as int) =~= basename@);
        w.append(" found");
    }
    assert(w@ =~= mid + basename_note(case, *c));
    w.append(")\n");
    assert(w@ =~= old(w)@ + entry_details(case, *c));
}

fn push_warning_block(
    w: &mut String,
    case: &RepairCase,
    c: &ScoredCandidate,
    link_dev: u64,
    target_dev: u64,
) -> (on: Ghost<bool>)
    ensures
        final(w)@ == old(w)@ + warning_block(case, *c, link_dev, target_dev, on@),
{
    let warnings = relink_warnings(case.original_target.as_str(), c.path.as_str(), link_dev, target_dev);
    if warnings.len() > 0 {
        let text = format_warnings(&warnings);
        push_painted(w, text.as_str(), Color::Yellow)
    } else {
        assert(w@ =~= old(w)@ + warning_block(case, *c, link_dev, target_dev, false));
        Ghost(false)
    }
}

/// Appends the entry for candidate `i` of `case`; the flags tell where
/// colour was used.
fn push_candidate_entry(
    w: &mut String,
    case: &RepairCase,
    i: usize,
    basename: &Vec<char>,
    link_dev: u64,
    target_dev: u64,
) -> (flags: Ghost<(bool, bool, bool)>)
    requires
        i < case.candidates.len(),
        i + 1 <= u64::MAX,
        basename@ == target_basename(case),
    ensures
        final(w)@ == old(w)@ + candidate_entry(case, i as int, link_dev, target_dev, flags@),
{
    let c = &case.candidates[i];
    let h = push_entry_head(w, i, &c.path);
    push_entry_details(w, case, c, basename);
    let f2 = push_warning_block(w, case, c, link_dev, target_dev);
    let ghost flags = (h@.0, h@.1, f2@);
    assert(w@ =~= old(w)@ + candidate_entry(case, i as int, link_dev, target_dev, flags));
    Ghost(flags)
}

/// Writes the numbered candidates of `case`: each with its score, shared
/// directories, how many files share the target's name, and the warnings
/// for relinking to it. `link_dev` is the device of the link and
/// `target_devs[i]` that of candidate `i` (0 where unknown). With no
/// candidate it writes a note saying so.
pub fn format_candidates(w: &mut String, case: &RepairCase, link_dev: u64, target_devs: &Vec<u64>)
    requires
        target_devs.len() == case.candidates.len(),
    ensures
        exists|on: Seq<(bool, bool, bool)>, on_none: bool|
            final(w)@ == old(w)@ + #[trigger] candidates_text(
                case,
                link_dev,
                target_devs@,
                on,
                on_none,
            ),
{
    let n = case.candidates.len();
    if n == 0 {
        w.append("  ");
        let e = push_painted(w, "no candidates found", Color::Yellow);
        w.append("\n");
        assert(w@ =~= old(w)@ + candidates_text(case, link_dev, target_devs@, Seq::empty(), e@));
        return;
    }
    let basename: Vec<char> = match file_name(case.original_target.as_str()) {
        Some(nm) => nm,
        None => Vec::new(),
    };
    assert(basename@ =~= target_basename(case));
    let ghost mut on: Seq<(bool, bool, bool)> = Seq::empty();
    let mut i: usize = 0;
    while i < n
        invariant
            i <= n == case.candidates.len() == target_devs.len(),
            on.len() == i,
            basename@ == target_basename(case),
            w@ == old(w)@ + candidate_entries(case, link_dev, target_devs@, on, i as nat),
        decreases n - i,
    {
        let flags = push_candidate_entry(w, case, i, &basename, link_dev, target_devs[i]);
        proof {
            let old_on = on;
            lemma_entries_prefix(case, link_dev, target_devs@, on, seq![flags@], i as nat);
            on = on.push(flags@);
            assert(on =~= old_on + seq![flags@]);
            assert(on[i as int] == flags@);
            assert(candidate_entries(case, link_dev, target_devs@, on, (i + 1) as nat)
                == candidate_entries(case, link_dev, target_devs@, old_on, i as nat)
                + candidate_entry(case, i as int, link_dev, target_devs@[i as int], flags@));
        }
        i += 1;
    }
    assert(w@ == old(w)@ + candidates_text(case, link_dev, target_devs@, on, false));
}

// ---------------------------------------------------------------------------
// Actions
// ---------------------------------------------------------------------------

/// The actions on offer when there are `n` candidates.
pub open spec fn actions_text(n: nat) -> Seq<char> {
    if n == 0 {
        "[c] custom path  [s] skip  [r] remove"@
    } else if n == 1 {
        "[1] select  [c] custom path  [s] skip  [r] remove"@
    } else {
        "[1-"@ + decimal(n) + "] select  [c] custom path  [s] skip  [r] remove"@
    }
}

/// The actions line, in cyan where colour is used.
pub open spec fn actions_line(n: nat, on: bool) -> Seq<char> {
    "  "@ + styled(actions_text(n), Color::Cyan, on) + "\n"@
}

/// Writes the line of actions on offer for `case`: selecting a candidate
/// (when there is one), a custom path, skipping or removing.
pub fn format_actions(w: &mut String, case: &RepairCase)
    ensures
        exists|on: bool|
            final(w)@ == old(w)@ + #[trigger] actions_line(case.candidates@.len(), on),
{
    let n = case.candidates.len();
    let mut actions = String::new();
    if n == 0 {
        actions.append("[c] custom path  [s] skip  [r] remove");
    } else if n == 1 {
        actions.append("[1] select  [c] custom path  [s] skip  [r] remove");
    } else {
        actions.append("[1-");
        push_decimal(&mut actions, n as u64);
        actions.append("] select  [c] custom path  [s] skip  [r] remove");
    }
    assert(actions@ =~= actions_text(n as nat));
    w.append("  ");
    let on = push_painted(w, actions.as_str(), Color::Cyan);
    w.append("\n");
    assert(w@ =~= old(w)@ + actions_line(n as nat, on@));
}

// ---------------------------------------------------------------------------
// The whole case
// ---------------------------------------------------------------------------

/// The flags of a rendering of `n` candidates in which every piece took the
/// colour setting `on`.
pub open spec fn uniform_flags(n: nat, on: bool) -> Seq<(bool, bool, bool)> {
    Seq::new(n, |i: int| (on, on, on))
}

/// What `present` writes when every piece takes the colour setting `on`:
/// the header, then the candidates, then the actions, each as
/// `format_header`, `format_candidates` and `format_actions` write them under
/// that setting.
pub open spec fn present_text(case: &RepairCase, link_dev: u64, target_devs: Seq<u64>, on: bool) -> Seq<
    char,
> {
    header_text(case, on, on) + candidates_text(
        case,
        link_dev,
        target_devs,
        uniform_flags(case.candidates@.len(), on),
        on,
    ) + actions_line(case.candidates@.len(), on)
}

/// Under one colour setting, the text of a case is its header followed by
/// its candidates and its actions, and it is one of the texts that
/// `present` may write; with colour off, every piece is written as it is.
pub proof fn lemma_present_sections(case: &RepairCase, link_dev: u64, target_devs: Seq<u64>, on: bool)
    ensures
        present_text(case, link_dev, target_devs, on) == header_text(case, on, on)
            + candidates_text(
            case,
            link_dev,
            target_devs,
            uniform_flags(case.candidates@.len(), on),
            on,
        ) + actions_line(case.candidates@.len(), on),
        exists|a: bool, b: bool, f: Seq<(bool, bool, bool)>, e: bool, g: bool|
            present_text(case, link_dev, target_devs, on) == #[trigger] header_text(case, a, b)
                + #[trigger] candidates_text(case, link_dev, target_devs, f, e)
                + #[trigger] actions_line(case.candidates@.len(), g),
        !on ==> header_text(case, on, on) == case.link@ + " -> "@ + case.original_target@ + "\n"@,
        !on ==> actions_line(case.candidates@.len(), on) == "  "@ + actions_text(
            case.candidates@.len(),
        ) + "\n"@,
{
    let f = uniform_flags(case.candidates@.len(), on);
    assert(present_text(case, link_dev, target_devs, on) == header_text(case, on, on)
        + candidates_text(case, link_dev, target_devs, f, on) + actions_line(
        case.candidates@.len(),
        on,
    ));
}

/// Writes the header, the candidates and the actions of `case`, in that
/// order (see `format_header`, `format_candidates`, `format_actions`).
pub fn present(w: &mut String, case: &RepairCase, link_dev: u64, target_devs: &Vec<u64>)
    requires
        target_devs.len() == case.candidates.len(),
    ensures
        exists|a: bool, b: bool, on: Seq<(bool, bool, bool)>, on_none: bool, on_actions: bool|
            final(w)@ == old(w)@ + #[trigger] header_text(case, a, b) + #[trigger] candidates_text(
                case,
                link_dev,
                target_devs@,
                on,
                on_none,
            ) + #[trigger] actions_line(case.candidates@.len(), on_actions),
{
    format_header(w, case);
    let ghost w1 = w@;
    format_candidates(w, case, link_dev, target_devs);
    let ghost w2 = w@;
    format_actions(w, case);
    proof {
        let (a, b) = choose|a: bool, b: bool| w1 == old(w)@ + #[trigger] header_text(case, a, b);
        let (on, on_none) = choose|on: Seq<(bool, bool, bool)>, on_none: bool|
            w2 == w1 + #[trigger] candidates_text(case, link_dev, target_devs@, on, on_none);
        let on_actions = choose|x: bool| w@ == w2 + #[trigger] actions_line(case.candidates@.len(), x);
        assert(w@ =~= old(w)@ + header_text(case, a, b) + candidates_text(
            case,
            link_dev,
            target_devs@,
            on,
            on_none,
        ) + actions_line(case.candidates@.len(), on_actions));
    }
}

} // verus!
