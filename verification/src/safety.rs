//! Checks made before a link is pointed somewhere new: warnings about how the
//! link changes, and the walk that detects a symlink loop.

use vstd::prelude::*;
use crate::path::{
    is_absolute, is_absolute_spec, join, join_spec, parent, parent_or_cur_dir, same_path,
    same_path_spec,
};
use crate::text::chars_of;

verus! {

/// Something about a relink that the user should know before choosing it.
#[derive(Debug, Clone, Copy, PartialEq, Eq, Structural)]
pub enum RelinkWarning {
    /// The link and the new target are on different devices.
    CrossFilesystem { link_dev: u64, target_dev: u64 },
    RelativeToAbsolute,
    AbsoluteToRelative,
}

/// The warnings for pointing a link whose target was `original_target` at
/// `new_target`; `link_dev` and `target_dev` are the devices of the link and
/// of the new target, 0 where unknown.
pub open spec fn warnings_spec(
    original_target: Seq<char>,
    new_target: Seq<char>,
    link_dev: u64,
    target_dev: u64,
) -> Seq<RelinkWarning> {
    let a = if !is_absolute_spec(original_target) && is_absolute_spec(new_target) {
        seq![RelinkWarning::RelativeToAbsolute]
    } else {
        Seq::empty()
    };
    let b = if is_absolute_spec(original_target) && !is_absolute_spec(new_target) {
        seq![RelinkWarning::AbsoluteToRelative]
    } else {
        Seq::empty()
    };
    let c = if link_dev != 0 && target_dev != 0 && link_dev != target_dev {
        seq![RelinkWarning::CrossFilesystem { link_dev, target_dev }]
    } else {
        Seq::empty()
    };
    a + b + c
}

/// Warns when a relative target would become absolute or the other way
/// round, and when link and new target sit on different devices (both
/// devices known, that is nonzero).
pub fn relink_warnings(original_target: &str, new_target: &str, link_dev: u64, target_dev: u64) -> (r:
    Vec<RelinkWarning>)
    ensures
        r@ == warnings_spec(original_target@, new_target@, link_dev, target_dev),
        r@.contains(RelinkWarning::CrossFilesystem { link_dev, target_dev }) <==> (link_dev != 0
            && target_dev != 0 && link_dev != target_dev),
        r@.contains(RelinkWarning::RelativeToAbsolute) <==> (!is_absolute_spec(original_target@)
            && is_absolute_spec(new_target@)),
        r@.contains(RelinkWarning::AbsoluteToRelative) <==> (is_absolute_spec(original_target@)
            && !is_absolute_spec(new_target@)),
{
    let mut warnings: Vec<RelinkWarning> = Vec::new();
    let orig_abs = is_absolute(original_target);
    let new_abs = is_absolute(new_target);
    if !orig_abs && new_abs {
        warnings.push(RelinkWarning::RelativeToAbsolute);
    }
    if orig_abs && !new_abs {
        warnings.push(RelinkWarning::AbsoluteToRelative);
    }
    if link_dev != 0 && target_dev != 0 && link_dev != target_dev {
        warnings.push(RelinkWarning::CrossFilesystem { link_dev, target_dev });
    }
    assert(warnings@ =~= warnings_spec(original_target@, new_target@, link_dev, target_dev));
    proof {
        lemma_warning_conditions(original_target@, new_target@, link_dev, target_dev);
    }
    warnings
}

/// Each warning is given exactly when its own condition holds, whatever the
/// others: the cross-filesystem warning when both devices are known and
/// differ, whichever way the targets are written; the change from relative to
/// absolute when the old target was relative and the new one is absolute;
/// the change from absolute to relative in the opposite case. Nothing else
/// is given, and the warning about the devices comes last.
pub proof fn lemma_warning_conditions(
    original_target: Seq<char>,
    new_target: Seq<char>,
    link_dev: u64,
    target_dev: u64,
)
    ensures
        ({
            let ws = warnings_spec(original_target, new_target, link_dev, target_dev);
            &&& ws.contains(RelinkWarning::CrossFilesystem { link_dev, target_dev }) <==> (link_dev
                != 0 && target_dev != 0 && link_dev != target_dev)
            &&& ws.contains(RelinkWarning::RelativeToAbsolute) <==> (!is_absolute_spec(
                original_target,
            ) && is_absolute_spec(new_target))
            &&& ws.contains(RelinkWarning::AbsoluteToRelative) <==> (is_absolute_spec(
                original_target,
            ) && !is_absolute_spec(new_target))
            &&& ws.len() == (if is_absolute_spec(original_target) != is_absolute_spec(new_target) {
                1int
            } else {
                0int
            }) + (if link_dev != 0 && target_dev != 0 && link_dev != target_dev {
                1int
            } else {
                0int
            })
            &&& (link_dev != 0 && target_dev != 0 && link_dev != target_dev) ==> ws.last()
                == RelinkWarning::CrossFilesystem { link_dev, target_dev }
        }),
{
    let ws = warnings_spec(original_target, new_target, link_dev, target_dev);
    let cf = RelinkWarning::CrossFilesystem { link_dev, target_dev };
    if link_dev != 0 && target_dev != 0 && link_dev != target_dev {
        assert(ws[ws.len() - 1] == cf);
    }
    if !is_absolute_spec(original_target) && is_absolute_spec(new_target) {
        assert(ws[0] == RelinkWarning::RelativeToAbsolute);
    }
    if is_absolute_spec(original_target) && !is_absolute_spec(new_target) {
        assert(ws[0] == RelinkWarning::AbsoluteToRelative);
    }
}

/// A relink is never reported as both turning a relative target absolute
/// and an absolute one relative, and holds at most one warning of each
/// kind.
pub proof fn lemma_direction_warnings_exclusive(
    original_target: Seq<char>,
    new_target: Seq<char>,
    link_dev: u64,
    target_dev: u64,
)
    ensures
        ({
            let ws = warnings_spec(original_target, new_target, link_dev, target_dev);
            &&& ws.len() <= 2
            &&& !(ws.contains(RelinkWarning::RelativeToAbsolute) && ws.contains(
                RelinkWarning::AbsoluteToRelative,
            ))
        }),
{
    let ws = warnings_spec(original_target, new_target, link_dev, target_dev);
    if ws.contains(RelinkWarning::RelativeToAbsolute) {
        let i = choose|i: int| 0 <= i < ws.len() && ws[i] == RelinkWarning::RelativeToAbsolute;
        assert(!is_absolute_spec(original_target));
    }
}

/// The line that describes one warning.
pub open spec fn warning_line(w: RelinkWarning) -> Seq<char> {
    match w {
        RelinkWarning::CrossFilesystem { .. } =>
            "      ⚠ cross-filesystem (link and target on different mounts)\n"@,
        RelinkWarning::RelativeToAbsolute => "      ⚠ was relative, would become absolute\n"@,
        RelinkWarning::AbsoluteToRelative => "      ⚠ was absolute, would become relative\n"@,
    }
}

/// The lines for `ws`, one after another.
pub open spec fn warnings_text(ws: Seq<RelinkWarning>) -> Seq<char>
    decreases ws.len(),
{
    if ws.len() == 0 {
        Seq::empty()
    } else {
        warnings_text(ws.drop_last()) + warning_line(ws.last())
    }
}

/// How many line breaks `s` holds.
pub open spec fn newline_count(s: Seq<char>) -> nat
    decreases s.len(),
{
    if s.len() == 0 {
        0
    } else {
        newline_count(s.drop_last()) + if s.last() == '\n' {
            1nat
        } else {
            0nat
        }
    }
}

proof fn lemma_newline_count_concat(a: Seq<char>, b: Seq<char>)
    ensures
        newline_count(a + b) == newline_count(a) + newline_count(b),
    decreases b.len(),
{
    if b.len() > 0 {
        lemma_newline_count_concat(a, b.drop_last());
        assert((a + b).drop_last() =~= a + b.drop_last());
    } else {
        assert(a + b =~= a);
    }
}

proof fn lemma_no_newline(s: Seq<char>)
    requires
        forall|i: int| 0 <= i < s.len() ==> s[i] != '\n',
    ensures
        newline_count(s) == 0,
    decreases s.len(),
{
    if s.len() > 0 {
        lemma_no_newline(s.drop_last());
    }
}

/// Each warning line holds one line break, at its end.
proof fn lemma_warning_line_shape(w: RelinkWarning)
    ensures
        warning_line(w).len() > 0,
        warning_line(w).last() == '\n',
        newline_count(warning_line(w)) == 1,
{
    reveal_strlit("      ⚠ cross-filesystem (link and target on different mounts)\n");
    reveal_strlit("      ⚠ was relative, would become absolute\n");
    reveal_strlit("      ⚠ was absolute, would become relative\n");
    let s = warning_line(w);
    assert(forall|i: int| 0 <= i < s.len() - 1 ==> s[i] != '\n');
    lemma_no_newline(s.drop_last());
}

/// The rendering of warnings is line by line: the text for two lists one
/// after the other is the text of the first followed by that of the second;
/// no warning gives no text; and the text of a list holds one line per
/// warning, each ended by a line break.
pub proof fn lemma_warnings_text_lines(a: Seq<RelinkWarning>, b: Seq<RelinkWarning>)
    ensures
        warnings_text(a + b) == warnings_text(a) + warnings_text(b),
        warnings_text(Seq::<RelinkWarning>::empty()) == Seq::<char>::empty(),
        newline_count(warnings_text(a)) == a.len(),
        a.len() > 0 ==> warnings_text(a).len() > 0 && warnings_text(a).last() == '\n',
    decreases a.len() + b.len(),
{
    if b.len() > 0 {
        lemma_warnings_text_lines(a, b.drop_last());
        assert((a + b).drop_last() =~= a + b.drop_last());
        assert((a + b).last() == b.last());
    } else {
        assert(a + b =~= a);
    }
    if a.len() > 0 {
        lemma_warnings_text_lines(a.drop_last(), Seq::empty());
        lemma_warning_line_shape(a.last());
        lemma_newline_count_concat(warnings_text(a.drop_last()), warning_line(a.last()));
    }
}

/// Renders the warnings, one indented line each.
pub fn format_warnings(warnings: &Vec<RelinkWarning>) -> (r: String)
    ensures
        r@ == warnings_text(warnings@),
{
    let mut out = String::new();
    let mut i: usize = 0;
    while i < warnings.len()
        invariant
            i <= warnings.len(),
            out@ == warnings_text(warnings@.take(i as int)),
        decreases warnings.len() - i,
    {
        assert(warnings@.take(i + 1).drop_last() =~= warnings@.take(i as int));
        match warnings[i] {
            RelinkWarning::CrossFilesystem { .. } => {
                out.append("      ⚠ cross-filesystem (link and target on different mounts)\n");
            },
            RelinkWarning::RelativeToAbsolute => {
                out.append("      ⚠ was relative, would become absolute\n");
            },
            RelinkWarning::AbsoluteToRelative => {
                out.append("      ⚠ was absolute, would become relative\n");
            },
        }
        i += 1;
    }
    assert(warnings@.take(warnings.len() as int) =~= warnings@);
    out
}

/// How many links the loop check follows before it gives up.
pub const MAX_HOPS: usize = 64;

/// What is found at a path that the loop check inspects.
pub enum LinkProbe {
    /// Nothing can be read there (missing, or unreadable link).
    Unreadable,
    /// Something that is not a symbolic link.
    NotSymlink,
    /// A symbolic link with this target text.
    Symlink(String),
}

/// What the loop check needs next.
pub enum LoopStep {
    /// The check is over: whether the relink would make a loop.
    Verdict(bool),
    /// Inspect this path and report it with `observe`.
    Inspect(String),
}

/// The walk that decides whether pointing `link` at a new target would make
/// a symlink loop: it follows the chain of links from the new target and
/// reports a loop when the chain comes back to the link or to a path it has
/// already seen. It gives up, reporting no loop, after `MAX_HOPS` links, or
/// as soon as the chain ends in something that is not a readable link.
pub struct LoopCheck {
    link: String,
    current: String,
    visited: Vec<String>,
    hops: usize,
    awaiting: bool,
}

/// The path the chain moves to from `current` when it is a link to `target`.
pub open spec fn next_hop(current: Seq<char>, target: Seq<char>) -> Seq<char> {
    join_spec(parent_or_cur_dir(current), target)
}

/// The path `p` is one of `seen`, component by component.
pub open spec fn seen_before(seen: Seq<Seq<char>>, p: Seq<char>) -> bool {
    exists|i: int| 0 <= i < seen.len() && same_path_spec(#[trigger] seen[i], p)
}

/// A path that is the same as any one of `seen` (not only the first) has
/// been seen before.
pub proof fn lemma_seen_before_any(seen: Seq<Seq<char>>, p: Seq<char>, i: int)
    requires
        0 <= i < seen.len(),
        same_path_spec(seen[i], p),
    ensures
        seen_before(seen, p),
{
}

impl LoopCheck {
    pub closed spec fn link_spec(&self) -> Seq<char> {
        self.link@
    }

    pub closed spec fn current_spec(&self) -> Seq<char> {
        self.current@
    }

    pub closed spec fn visited_spec(&self) -> Seq<Seq<char>> {
        self.visited@.map_values(|s: String| s@)
    }

    pub closed spec fn hops_spec(&self) -> nat {
        self.hops as nat
    }

    /// An inspection is out and `observe` is owed.
    pub closed spec fn awaiting_spec(&self) -> bool {
        self.awaiting
    }

    /// Starts the check for pointing `link` at `new_target`.
    pub fn new(link: &str, new_target: &str) -> (r: LoopCheck)
        ensures
            r.link_spec() == link@,
            r.current_spec() == new_target@,
            r.visited_spec() == Seq::<Seq<char>>::empty(),
            r.hops_spec() == 0,
            !r.awaiting_spec(),
    {
        let link_chars = chars_of(link);
        let r = LoopCheck {
            link: crate::text::string_of(&link_chars, 0, link_chars.len()),
            current: {
                let t = chars_of(new_target);
                crate::text::string_of(&t, 0, t.len())
            },
            visited: Vec::new(),
            hops: 0,
            awaiting: false,
        };
        assert(r.visited_spec() =~= Seq::<Seq<char>>::empty());
        assert(link_chars@.subrange(0, link_chars@.len() as int) =~= link@);
        assert(new_target@.subrange(0, new_target@.len() as int) =~= new_target@);
        r
    }

    /// The next move of the check: a verdict, or a path to inspect.
    pub fn next_step(&mut self) -> (r: LoopStep)
        requires
            !old(self).awaiting_spec(),
        ensures
            final(self).link_spec() == old(self).link_spec(),
            final(self).current_spec() == old(self).current_spec(),
            final(self).hops_spec() == old(self).hops_spec(),
            old(self).hops_spec() < MAX_HOPS ==> forall|i: int|
                0 <= i < old(self).visited_spec().len() && same_path_spec(
                    #[trigger] old(self).visited_spec()[i],
                    old(self).current_spec(),
                ) ==> r == LoopStep::Verdict(true),
            if old(self).hops_spec() >= MAX_HOPS {
                r == LoopStep::Verdict(false) && final(self).visited_spec() == old(
                    self,
                ).visited_spec() && !final(self).awaiting_spec()
            } else if same_path_spec(old(self).current_spec(), old(self).link_spec()) || seen_before(
                old(self).visited_spec(),
                old(self).current_spec(),
            ) {
                r == LoopStep::Verdict(true) && final(self).visited_spec() == old(
                    self,
                ).visited_spec() && !final(self).awaiting_spec()
            } else {
                &&& r matches LoopStep::Inspect(p) && p@ == old(self).current_spec()
                &&& final(self).visited_spec() == old(self).visited_spec().push(
                    old(self).current_spec(),
                )
                &&& final(self).awaiting_spec()
            },
    {
        if self.hops >= MAX_HOPS {
            return LoopStep::Verdict(false);
        }
        if same_path(self.current.as_str(), self.link.as_str()) {
            return LoopStep::Verdict(true);
        }
        let mut i: usize = 0;
        while i < self.visited.len()
            invariant
                i <= self.visited.len(),
                *self == *old(self),
                !self.awaiting,
                self.hops < MAX_HOPS,
                !same_path_spec(self.current_spec(), self.link_spec()),
                forall|j: int|
                    0 <= j < i ==> !same_path_spec(
                        #[trigger] self.visited_spec()[j],
                        self.current_spec(),
                    ),
            decreases self.visited.len() - i,
        {
            if same_path(self.visited[i].as_str(), self.current.as_str()) {
                assert(self.visited_spec()[i as int] == self.visited@[i as int]@);
                assert(seen_before(self.visited_spec(), self.current_spec()));
                return LoopStep::Verdict(true);
            }
            assert(self.visited_spec()[i as int] == self.visited@[i as int]@);
            i += 1;
        }
        let ghost before = self.visited_spec();
        self.visited.push(self.current.clone());
        self.awaiting = true;
        assert(self.visited_spec() =~= before.push(self.current@));
        LoopStep::Inspect(self.current.clone())
    }

    /// Takes what was found at the inspected path: a link moves the check
    /// along the chain; anything else ends it with no loop.
    pub fn observe(&mut self, probe: LinkProbe) -> (r: Option<bool>)
        requires
            old(self).awaiting_spec(),
            old(self).hops_spec() < MAX_HOPS,
        ensures
            final(self).link_spec() == old(self).link_spec(),
            final(self).visited_spec() == old(self).visited_spec(),
            !final(self).awaiting_spec(),
            match probe {
                LinkProbe::Symlink(t) => {
                    &&& r is None
                    &&& final(self).current_spec() == next_hop(old(self).current_spec(), t@)
                    &&& final(self).hops_spec() == old(self).hops_spec() + 1
                },
                _ => r == Some(false) && final(self).current_spec() == old(self).current_spec()
                    && final(self).hops_spec() == old(self).hops_spec(),
            },
    {
        self.awaiting = false;
        match probe {
            LinkProbe::Symlink(t) => {
                let base = match parent(self.current.as_str()) {
                    Some(p) => p,
                    None => {
                        let mut dot = String::new();
                        crate::text::push_char(&mut dot, '.');
                        assert(dot@ =~= seq!['.']);
                        dot
                    },
                };
                self.current = join(base.as_str(), t.as_str());
                self.hops = self.hops + 1;
                None
            },
            _ => Some(false),
        }
    }
}

} // verus!
