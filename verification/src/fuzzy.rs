//! Candidates for the moved target of a broken link: files found under the
//! search root whose name matches the name the link points at, exact matches
//! first, then names that hold or are held by it.

use vstd::prelude::*;
use crate::path::{components, components_of, file_name, file_name_spec, same_path, same_path_spec, texts};
use crate::text::{chars_eq, chars_of, contains, contains_seq, edit_distance, edit_distance_of};
use crate::model::RepairCase;

verus! {

/// A symbolic link whose target does not exist.
pub struct BrokenSymlink {
    pub link: String,
    pub target: String,
}

/// One entry met while walking the search root: its full path and its final
/// name.
pub struct WalkEntry {
    pub path: String,
    pub name: String,
}

/// A place the target may have moved to, with how well it matches.
pub struct ScoredCandidate {
    pub path: String,
    /// Match score in hundredths (a score of 3.2 is 320).
    pub score_hundredths: i64,
    /// Directories that this path shares with the original target.
    pub shared_dirs: usize,
    /// How many files with the target's name were found.
    pub basename_count: usize,
}

/// The texts of a list of strings.
pub open spec fn strings(v: Seq<String>) -> Seq<Seq<char>> {
    v.map_values(|s: String| s@)
}

/// Where a candidate search looks: the broken link (never a candidate
/// itself), the search root, and the directory names left out below it.
pub struct Scope {
    pub link: Seq<char>,
    pub root: Seq<char>,
    pub ignore: Seq<String>,
}

/// `path` lies in, or is, a directory below `root` named in `ignore`: one of
/// its components after those of `root` is an ignored name.
pub open spec fn under_ignored(path: Seq<char>, root: Seq<char>, ignore: Seq<String>) -> bool {
    let c = components(path);
    exists|i: int| components(root).len() <= i < c.len() && #[trigger] ignored_spec(c[i], ignore)
}

/// `e` may be offered at all: it is not the link itself and not in an
/// ignored directory.
pub open spec fn in_scope(e: WalkEntry, scope: Scope) -> bool {
    !same_path_spec(e.path@, scope.link) && !under_ignored(e.path@, scope.root, scope.ignore)
}

/// `e` is in scope and carries exactly the name `name`.
pub open spec fn is_exact_match(e: WalkEntry, scope: Scope, name: Seq<char>) -> bool {
    in_scope(e, scope) && e.name@ == name
}

/// `e` is in scope, and its name differs from `name` but holds it or is
/// held by it.
pub open spec fn is_partial_match(e: WalkEntry, scope: Scope, name: Seq<char>) -> bool {
    &&& in_scope(e, scope)
    &&& e.name@ != name
    &&& (contains_seq(e.name@, name) || contains_seq(name, e.name@))
}

/// The paths of the exact matches among `entries`, in walk order.
pub open spec fn exact_paths(entries: Seq<WalkEntry>, scope: Scope, name: Seq<char>) -> Seq<
    Seq<char>,
>
    decreases entries.len(),
{
    if entries.len() == 0 {
        Seq::empty()
    } else {
        let r = exact_paths(entries.drop_last(), scope, name);
        if is_exact_match(entries.last(), scope, name) {
            r.push(entries.last().path@)
        } else {
            r
        }
    }
}

/// The paths of the partial matches among `entries`, in walk order.
pub open spec fn partial_paths(entries: Seq<WalkEntry>, scope: Scope, name: Seq<char>) -> Seq<
    Seq<char>,
>
    decreases entries.len(),
{
    if entries.len() == 0 {
        Seq::empty()
    } else {
        let r = partial_paths(entries.drop_last(), scope, name);
        if is_partial_match(entries.last(), scope, name) {
            r.push(entries.last().path@)
        } else {
            r
        }
    }
}

/// The candidates for `target`: none when the target has no final name,
/// else the exact matches followed by the partial matches.
pub open spec fn candidates_spec(entries: Seq<WalkEntry>, scope: Scope, target: Seq<char>) -> Seq<
    Seq<char>,
> {
    match file_name_spec(target) {
        None => Seq::empty(),
        Some(name) => exact_paths(entries, scope, name) + partial_paths(entries, scope, name),
    }
}

proof fn lemma_exact_paths_from_entries(entries: Seq<WalkEntry>, scope: Scope, name: Seq<char>, p: int)
    requires
        0 <= p < exact_paths(entries, scope, name).len(),
    ensures
        exists|i: int|
            0 <= i < entries.len() && #[trigger] entries[i].path@ == exact_paths(entries, scope, name)[p]
                && is_exact_match(entries[i], scope, name),
    decreases entries.len(),
{
    let r = exact_paths(entries.drop_last(), scope, name);
    if p < r.len() {
        lemma_exact_paths_from_entries(entries.drop_last(), scope, name, p);
        let i = choose|i: int|
            0 <= i < entries.drop_last().len() && #[trigger] entries.drop_last()[i].path@ == r[p]
                && is_exact_match(entries.drop_last()[i], scope, name);
        assert(entries[i] == entries.drop_last()[i]);
    } else {
        assert(entries[entries.len() - 1] == entries.last());
    }
}

proof fn lemma_partial_paths_from_entries(entries: Seq<WalkEntry>, scope: Scope, name: Seq<char>, p: int)
    requires
        0 <= p < partial_paths(entries, scope, name).len(),
    ensures
        exists|i: int|
            0 <= i < entries.len() && #[trigger] entries[i].path@ == partial_paths(entries, scope, name)[p]
                && is_partial_match(entries[i], scope, name),
    decreases entries.len(),
{
    let r = partial_paths(entries.drop_last(), scope, name);
    if p < r.len() {
        lemma_partial_paths_from_entries(entries.drop_last(), scope, name, p);
        let i = choose|i: int|
            0 <= i < entries.drop_last().len() && #[trigger] entries.drop_last()[i].path@ == r[p]
                && is_partial_match(entries.drop_last()[i], scope, name);
        assert(entries[i] == entries.drop_last()[i]);
    } else {
        assert(entries[entries.len() - 1] == entries.last());
    }
}

proof fn lemma_exact_entry_listed(entries: Seq<WalkEntry>, scope: Scope, name: Seq<char>, i: int)
    requires
        0 <= i < entries.len(),
        is_exact_match(entries[i], scope, name),
    ensures
        exists|p: int|
            0 <= p < exact_paths(entries, scope, name).len() && #[trigger] exact_paths(
                entries,
                scope,
                name,
            )[p] == entries[i].path@,
    decreases entries.len(),
{
    let r = exact_paths(entries.drop_last(), scope, name);
    if i < entries.len() - 1 {
        assert(entries.drop_last()[i] == entries[i]);
        lemma_exact_entry_listed(entries.drop_last(), scope, name, i);
        let p = choose|p: int| 0 <= p < r.len() && #[trigger] r[p] == entries[i].path@;
        assert(exact_paths(entries, scope, name)[p] == r[p]);
    } else {
        assert(exact_paths(entries, scope, name)[r.len() as int] == entries[i].path@);
    }
}

proof fn lemma_partial_entry_listed(entries: Seq<WalkEntry>, scope: Scope, name: Seq<char>, i: int)
    requires
        0 <= i < entries.len(),
        is_partial_match(entries[i], scope, name),
    ensures
        exists|p: int|
            0 <= p < partial_paths(entries, scope, name).len() && #[trigger] partial_paths(
                entries,
                scope,
                name,
            )[p] == entries[i].path@,
    decreases entries.len(),
{
    let r = partial_paths(entries.drop_last(), scope, name);
    if i < entries.len() - 1 {
        assert(entries.drop_last()[i] == entries[i]);
        lemma_partial_entry_listed(entries.drop_last(), scope, name, i);
        let p = choose|p: int| 0 <= p < r.len() && #[trigger] r[p] == entries[i].path@;
        assert(partial_paths(entries, scope, name)[p] == r[p]);
    } else {
        assert(partial_paths(entries, scope, name)[r.len() as int] == entries[i].path@);
    }
}

/// Every candidate is the path of a walked entry that is not the broken link
/// itself, and whose name matches the target's name exactly or partly.
pub proof fn lemma_candidates_are_matching_entries(
    entries: Seq<WalkEntry>,
    scope: Scope,
    target: Seq<char>,
    p: int,
)
    requires
        0 <= p < candidates_spec(entries, scope, target).len(),
    ensures
        file_name_spec(target) is Some,
        exists|i: int|
            0 <= i < entries.len() && #[trigger] entries[i].path@ == candidates_spec(
                entries,
                scope,
                target,
            )[p] && in_scope(entries[i], scope) && (is_exact_match(
                entries[i],
                scope,
                file_name_spec(target)->Some_0,
            ) || is_partial_match(entries[i], scope, file_name_spec(target)->Some_0)),
{
    let name = file_name_spec(target)->Some_0;
    let ex = exact_paths(entries, scope, name);
    if p < ex.len() {
        lemma_exact_paths_from_entries(entries, scope, name, p);
    } else {
        lemma_partial_paths_from_entries(entries, scope, name, p - ex.len());
    }
}

/// No candidate is the link itself or lies in a directory below the search
/// root whose name is ignored.
pub proof fn lemma_candidates_in_scope(entries: Seq<WalkEntry>, scope: Scope, target: Seq<char>, p: int)
    requires
        0 <= p < candidates_spec(entries, scope, target).len(),
    ensures
        !same_path_spec(candidates_spec(entries, scope, target)[p], scope.link),
        !under_ignored(candidates_spec(entries, scope, target)[p], scope.root, scope.ignore),
{
    lemma_candidates_are_matching_entries(entries, scope, target, p);
}

/// Every entry named exactly like the target (other than the link) is
/// listed, and before every entry whose name only partly matches.
pub proof fn lemma_exact_before_partial(
    entries: Seq<WalkEntry>,
    scope: Scope,
    target: Seq<char>,
    i: int,
    j: int,
)
    requires
        0 <= i < entries.len(),
        0 <= j < entries.len(),
        file_name_spec(target) is Some,
        is_exact_match(entries[i], scope, file_name_spec(target)->Some_0),
        is_partial_match(entries[j], scope, file_name_spec(target)->Some_0),
    ensures
        exists|p: int, q: int|
            0 <= p < q < candidates_spec(entries, scope, target).len() && #[trigger] candidates_spec(
                entries,
                scope,
                target,
            )[p] == entries[i].path@ && #[trigger] candidates_spec(entries, scope, target)[q]
                == entries[j].path@,
{
    let name = file_name_spec(target)->Some_0;
    let ex = exact_paths(entries, scope, name);
    let pa = partial_paths(entries, scope, name);
    let all = candidates_spec(entries, scope, target);
    lemma_exact_entry_listed(entries, scope, name, i);
    lemma_partial_entry_listed(entries, scope, name, j);
    let p = choose|p: int| 0 <= p < ex.len() && #[trigger] ex[p] == entries[i].path@;
    let q = choose|q: int| 0 <= q < pa.len() && #[trigger] pa[q] == entries[j].path@;
    assert(all[p] == ex[p]);
    assert(all[ex.len() + q] == pa[q]);
}

proof fn lemma_exact_order_kept(entries: Seq<WalkEntry>, scope: Scope, name: Seq<char>, i: int, j: int)
    requires
        0 <= i < j < entries.len(),
        is_exact_match(entries[i], scope, name),
        is_exact_match(entries[j], scope, name),
    ensures
        exists|p: int, q: int|
            0 <= p < q < exact_paths(entries, scope, name).len() && #[trigger] exact_paths(
                entries,
                scope,
                name,
            )[p] == entries[i].path@ && #[trigger] exact_paths(entries, scope, name)[q]
                == entries[j].path@,
    decreases entries.len(),
{
    let d = entries.drop_last();
    let r = exact_paths(d, scope, name);
    let all = exact_paths(entries, scope, name);
    assert(d[i] == entries[i]);
    if j < entries.len() - 1 {
        assert(d[j] == entries[j]);
        lemma_exact_order_kept(d, scope, name, i, j);
        let (p, q) = choose|p: int, q: int|
            0 <= p < q < r.len() && #[trigger] r[p] == entries[i].path@ && #[trigger] r[q]
                == entries[j].path@;
        assert(all[p] == r[p] && all[q] == r[q]);
    } else {
        lemma_exact_entry_listed(d, scope, name, i);
        let p = choose|p: int| 0 <= p < r.len() && #[trigger] r[p] == entries[i].path@;
        assert(all[p] == r[p]);
        assert(all[r.len() as int] == entries[j].path@);
    }
}

proof fn lemma_partial_order_kept(entries: Seq<WalkEntry>, scope: Scope, name: Seq<char>, i: int, j: int)
    requires
        0 <= i < j < entries.len(),
        is_partial_match(entries[i], scope, name),
        is_partial_match(entries[j], scope, name),
    ensures
        exists|p: int, q: int|
            0 <= p < q < partial_paths(entries, scope, name).len() && #[trigger] partial_paths(
                entries,
                scope,
                name,
            )[p] == entries[i].path@ && #[trigger] partial_paths(entries, scope, name)[q]
                == entries[j].path@,
    decreases entries.len(),
{
    let d = entries.drop_last();
    let r = partial_paths(d, scope, name);
    let all = partial_paths(entries, scope, name);
    assert(d[i] == entries[i]);
    if j < entries.len() - 1 {
        assert(d[j] == entries[j]);
        lemma_partial_order_kept(d, scope, name, i, j);
        let (p, q) = choose|p: int, q: int|
            0 <= p < q < r.len() && #[trigger] r[p] == entries[i].path@ && #[trigger] r[q]
                == entries[j].path@;
        assert(all[p] == r[p] && all[q] == r[q]);
    } else {
        lemma_partial_entry_listed(d, scope, name, i);
        let p = choose|p: int| 0 <= p < r.len() && #[trigger] r[p] == entries[i].path@;
        assert(all[p] == r[p]);
        assert(all[r.len() as int] == entries[j].path@);
    }
}

/// Within each group the walk order is kept: of two entries that both match
/// the target's name exactly, or both only partly, the one walked first is
/// listed first.
pub proof fn lemma_walk_order_kept(
    entries: Seq<WalkEntry>,
    scope: Scope,
    target: Seq<char>,
    i: int,
    j: int,
)
    requires
        0 <= i < j < entries.len(),
        file_name_spec(target) is Some,
        ({
            let name = file_name_spec(target)->Some_0;
            ||| is_exact_match(entries[i], scope, name) && is_exact_match(entries[j], scope, name)
            ||| is_partial_match(entries[i], scope, name) && is_partial_match(
                entries[j],
                scope,
                name,
            )
        }),
    ensures
        exists|p: int, q: int|
            0 <= p < q < candidates_spec(entries, scope, target).len() && #[trigger] candidates_spec(
                entries,
                scope,
                target,
            )[p] == entries[i].path@ && #[trigger] candidates_spec(entries, scope, target)[q]
                == entries[j].path@,
{
    let name = file_name_spec(target)->Some_0;
    let ex = exact_paths(entries, scope, name);
    let pa = partial_paths(entries, scope, name);
    let all = candidates_spec(entries, scope, target);
    if is_exact_match(entries[i], scope, name) && is_exact_match(entries[j], scope, name) {
        lemma_exact_order_kept(entries, scope, name, i, j);
        let (p, q) = choose|p: int, q: int|
            0 <= p < q < ex.len() && #[trigger] ex[p] == entries[i].path@ && #[trigger] ex[q]
                == entries[j].path@;
        assert(all[p] == ex[p] && all[q] == ex[q]);
    } else {
        lemma_partial_order_kept(entries, scope, name, i, j);
        let (p, q) = choose|p: int, q: int|
            0 <= p < q < pa.len() && #[trigger] pa[p] == entries[i].path@ && #[trigger] pa[q]
                == entries[j].path@;
        assert(all[ex.len() + p] == pa[p] && all[ex.len() + q] == pa[q]);
    }
}

proof fn lemma_match_count(entries: Seq<WalkEntry>, scope: Scope, name: Seq<char>)
    ensures
        exact_paths(entries, scope, name).len() + partial_paths(entries, scope, name).len()
            == entries.filter(
            |e: WalkEntry| is_exact_match(e, scope, name) || is_partial_match(e, scope, name),
        ).len(),
    decreases entries.len(),
{
    reveal(Seq::filter);
    if entries.len() > 0 {
        lemma_match_count(entries.drop_last(), scope, name);
    }
}

/// Each match is listed once: there are exactly as many candidates as
/// walked entries whose name matches the target's name, exactly or partly
/// (the link itself and entries below ignored directories left out).
pub proof fn lemma_one_candidate_per_match(entries: Seq<WalkEntry>, scope: Scope, target: Seq<char>)
    requires
        file_name_spec(target) is Some,
    ensures
        candidates_spec(entries, scope, target).len() == entries.filter(
            |e: WalkEntry|
                is_exact_match(e, scope, file_name_spec(target)->Some_0) || is_partial_match(
                    e,
                    scope,
                    file_name_spec(target)->Some_0,
                ),
        ).len(),
{
    let name = file_name_spec(target)->Some_0;
    lemma_match_count(entries, scope, name);
    assert(entries.filter(
        |e: WalkEntry| is_exact_match(e, scope, name) || is_partial_match(e, scope, name),
    ) == entries.filter(
        |e: WalkEntry|
            is_exact_match(e, scope, file_name_spec(target)->Some_0) || is_partial_match(
                e,
                scope,
                file_name_spec(target)->Some_0,
            ),
    ));
}

/// Nothing that matches is left out: every walked entry that is not the
/// link itself and not below an ignored directory, and whose name equals the
/// target's name, holds it or is held by it, is among the candidates.
pub proof fn lemma_every_match_listed(
    entries: Seq<WalkEntry>,
    scope: Scope,
    target: Seq<char>,
    i: int,
)
    requires
        0 <= i < entries.len(),
        file_name_spec(target) is Some,
        !same_path_spec(entries[i].path@, scope.link),
        !under_ignored(entries[i].path@, scope.root, scope.ignore),
        ({
            let name = file_name_spec(target)->Some_0;
            ||| entries[i].name@ == name
            ||| contains_seq(entries[i].name@, name)
            ||| contains_seq(name, entries[i].name@)
        }),
    ensures
        exists|p: int|
            0 <= p < candidates_spec(entries, scope, target).len() && #[trigger] candidates_spec(
                entries,
                scope,
                target,
            )[p] == entries[i].path@,
{
    let name = file_name_spec(target)->Some_0;
    let ex = exact_paths(entries, scope, name);
    let pa = partial_paths(entries, scope, name);
    let all = candidates_spec(entries, scope, target);
    if entries[i].name@ == name {
        lemma_exact_entry_listed(entries, scope, name, i);
        let p = choose|p: int| 0 <= p < ex.len() && #[trigger] ex[p] == entries[i].path@;
        assert(all[p] == ex[p]);
    } else {
        lemma_partial_entry_listed(entries, scope, name, i);
        let q = choose|q: int| 0 <= q < pa.len() && #[trigger] pa[q] == entries[i].path@;
        assert(all[ex.len() + q] == pa[q]);
    }
}

/// The scope of a search for the target of the link `link` under `root`,
/// leaving out the directories named in `ignore`.
pub open spec fn scope_of(link: Seq<char>, root: Seq<char>, ignore: Seq<String>) -> Scope {
    Scope { link, root, ignore }
}

/// Whether `path` lies in, or is, an ignored directory below the root, whose
/// path has `root_len` components.
fn is_under_ignored(path: &str, root_len: usize, Ghost(root): Ghost<Seq<char>>, ignore: &Vec<String>) -> (r: bool)
    requires
        root_len == components(root).len(),
    ensures
        r == under_ignored(path@, root, ignore@),
{
    let c = components_of(path);
    let mut i = root_len;
    while i < c.len()
        invariant
            root_len == components(root).len(),
            root_len <= i || i >= c.len(),
            texts(c@) == components(path@),
            forall|k: int| root_len <= k < i ==> !ignored_spec(#[trigger] components(path@)[k], ignore@),
        decreases c.len() - i,
    {
        assert(texts(c@)[i as int] == c@[i as int]@);
        if is_ignored_chars(&c[i], ignore) {
            return true;
        }
        i += 1;
    }
    false
}

/// Lists the entries of a walk of `search_root` that could be where the
/// target of `broken` went: those named exactly like the target first, then
/// those whose name holds the target's name or is held by it, each group in
/// walk order; never the link itself, and nothing in a directory below the
/// search root whose name is in `ignore`.
pub fn find_candidates(broken: &BrokenSymlink, search_root: &str, ignore: &Vec<String>, entries: &Vec<WalkEntry>) -> (r: Vec<String>)
    ensures
        strings(r@) == candidates_spec(
            entries@,
            scope_of(broken.link@, search_root@, ignore@),
            broken.target@,
        ),
{
    let ghost scope = scope_of(broken.link@, search_root@, ignore@);
    let target_name = match file_name(broken.target.as_str()) {
        Some(n) => n,
        None => {
            let empty: Vec<String> = Vec::new();
            assert(strings(empty@) =~= Seq::<Seq<char>>::empty());
            return empty;
        },
    };
    let root_len = components_of(search_root).len();
    let ghost name = target_name@;
    let mut exact: Vec<String> = Vec::new();
    let mut partial: Vec<String> = Vec::new();
    let mut i: usize = 0;
    while i < entries.len()
        invariant
            i <= entries.len(),
            scope == scope_of(broken.link@, search_root@, ignore@),
            root_len == components(search_root@).len(),
            name == target_name@,
            strings(exact@) == exact_paths(entries@.take(i as int), scope, name),
            strings(partial@) == partial_paths(entries@.take(i as int), scope, name),
        decreases entries.len() - i,
    {
        let e = &entries[i];
        assert(entries@.take(i + 1).drop_last() =~= entries@.take(i as int));
        assert(entries@.take(i + 1).last() == *e);
        let ghost old_exact = strings(exact@);
        let ghost old_partial = strings(partial@);
        if !same_path(e.path.as_str(), broken.link.as_str())
            && !is_under_ignored(e.path.as_str(), root_len, Ghost(search_root@), ignore) {
            let n = chars_of(e.name.as_str());
            if chars_eq(&n, &target_name) {
                exact.push(e.path.clone());
                assert(strings(exact@) =~= old_exact.push(e.path@));
            } else if contains(&n, &target_name) || contains(&target_name, &n) {
                partial.push(e.path.clone());
                assert(strings(partial@) =~= old_partial.push(e.path@));
            }
        }
        i += 1;
    }
    assert(entries@.take(entries.len() as int) =~= entries@);
    let ghost exact_view = strings(exact@);
    let mut j: usize = 0;
    while j < partial.len()
        invariant
            j <= partial.len(),
            strings(exact@) == exact_view + strings(partial@).take(j as int),
        decreases partial.len() - j,
    {
        let ghost before = strings(exact@);
        exact.push(partial[j].clone());
        assert(strings(exact@) =~= before.push(partial@[j as int]@));
        j += 1;
        assert(strings(exact@) =~= exact_view + strings(partial@).take(j as int));
    }
    assert(strings(partial@).take(partial.len() as int) =~= strings(partial@));
    exact
}

impl BrokenSymlink {
    /// `link -> target`, the way a scan reports a broken link.
    pub fn to_string(&self) -> (r: String)
        ensures
            r@ == self.link@ + " -> "@ + self.target@,
    {
        let mut r = String::new();
        r.append(self.link.as_str());
        r.append(" -> ");
        r.append(self.target.as_str());
        r
    }
}

/// `name` is one of the directory names to leave out of walks.
pub open spec fn ignored_spec(name: Seq<char>, ignore: Seq<String>) -> bool {
    exists|i: int| 0 <= i < ignore.len() && #[trigger] ignore[i]@ == name
}

/// Whether a walk leaves out entries called `name`.
pub fn is_ignored(name: &str, ignore: &Vec<String>) -> (r: bool)
    ensures
        r == ignored_spec(name@, ignore@),
{
    let n = chars_of(name);
    is_ignored_chars(&n, ignore)
}

/// Whether a walk stops at an entry `depth` levels below its root called
/// `name`: every entry below the root with an ignored name is left out,
/// with all it holds.
pub fn prunes(depth: usize, name: &str, ignore: &Vec<String>) -> (r: bool)
    ensures
        r == (depth > 0 && ignored_spec(name@, ignore@)),
{
    depth > 0 && is_ignored(name, ignore)
}

/// Whether a walk leaves out entries whose name has the characters `n`.
fn is_ignored_chars(n: &Vec<char>, ignore: &Vec<String>) -> (r: bool)
    ensures
        r == ignored_spec(n@, ignore@),
{
    let mut i: usize = 0;
    while i < ignore.len()
        invariant
            i <= ignore.len(),
            forall|j: int| 0 <= j < i ==> #[trigger] ignore@[j]@ != n@,
        decreases ignore.len() - i,
    {
        let g = chars_of(ignore[i].as_str());
        if chars_eq(&g, n) {
            assert(ignore@[i as int]@ == n@);
            return true;
        }
        i += 1;
    }
    false
}

/// How many leading entries `a` and `b` have in common.
pub open spec fn common_prefix_len(a: Seq<Seq<char>>, b: Seq<Seq<char>>) -> nat
    decreases a.len(),
{
    if a.len() > 0 && b.len() > 0 && a[0] == b[0] {
        1 + common_prefix_len(a.drop_first(), b.drop_first())
    } else {
        0
    }
}

/// The components of the directory that holds `p`.
pub open spec fn dir_components(p: Seq<char>) -> Seq<Seq<char>> {
    let c = components(p);
    if c.len() > 0 {
        c.drop_last()
    } else {
        c
    }
}

/// Directories that `candidate` shares with `target`, from the top down.
pub open spec fn shared_dirs_spec(candidate: Seq<char>, target: Seq<char>) -> nat {
    common_prefix_len(dir_components(candidate), dir_components(target))
}

/// The largest measure that a score tells apart.
pub const SCORE_CAP: usize = 1000000;

/// `x`, held at `SCORE_CAP`.
pub open spec fn capped(x: nat) -> int {
    if x > SCORE_CAP {
        SCORE_CAP as int
    } else {
        x as int
    }
}

/// The final name of `p`, or nothing when it has none.
pub open spec fn name_or_empty(p: Seq<char>) -> Seq<char> {
    match file_name_spec(p) {
        Some(n) => n,
        None => Seq::empty(),
    }
}

/// How deep `p` lies: the number of directories above its final component.
pub open spec fn depth_spec(p: Seq<char>) -> nat {
    dir_components(p).len()
}

/// The score of a candidate in hundredths; lower is better. It adds one
/// point per edit that turns the candidate's name into the target's name
/// (Levenshtein distance), a tenth of a point per directory above the
/// candidate (depth penalty), and takes off half a point per directory that
/// the candidate shares with the target (path similarity), each measure
/// held at `SCORE_CAP`.
pub open spec fn score_spec(name_distance: nat, depth: nat, shared: nat) -> int {
    100 * capped(name_distance) + 10 * capped(depth) - 50 * capped(shared)
}

/// Each measure moves the score by its own weight, as long as it stays
/// within `SCORE_CAP`: one more edit adds a point, one more directory above
/// the candidate adds a tenth of a point, and one more directory shared with
/// the target takes off half a point. So a closer name, a shallower place or
/// more shared directories always give a better (lower) score.
pub proof fn lemma_score_weights(d: nat, depth: nat, shared: nat)
    requires
        d < SCORE_CAP,
        depth < SCORE_CAP,
        shared < SCORE_CAP,
    ensures
        score_spec(d + 1, depth, shared) == score_spec(d, depth, shared) + 100,
        score_spec(d, depth + 1, shared) == score_spec(d, depth, shared) + 10,
        score_spec(d, depth, shared + 1) == score_spec(d, depth, shared) - 50,
        score_spec(0, 0, 0) == 0,
{
}

/// The score of the candidate at `path` for the target `target`.
pub open spec fn candidate_score(path: Seq<char>, target: Seq<char>) -> int {
    score_spec(
        edit_distance(name_or_empty(path), name_or_empty(target)),
        depth_spec(path),
        shared_dirs_spec(path, target),
    )
}

/// How many of `paths` carry exactly the name `name`.
pub open spec fn count_named(paths: Seq<Seq<char>>, name: Option<Seq<char>>) -> nat
    decreases paths.len(),
{
    if paths.len() == 0 {
        0
    } else {
        count_named(paths.drop_last(), name) + if name is Some && file_name_spec(paths.last()) == name {
            1nat
        } else {
            0nat
        }
    }
}

fn count_shared(a: &Vec<Vec<char>>, b: &Vec<Vec<char>>, a_len: usize, b_len: usize) -> (r: usize)
    requires
        a_len <= a.len(),
        b_len <= b.len(),
    ensures
        r == common_prefix_len(texts(a@).take(a_len as int), texts(b@).take(b_len as int)),
{
    let ghost ta = texts(a@).take(a_len as int);
    let ghost tb = texts(b@).take(b_len as int);
    let mut k: usize = 0;
    assert(ta.skip(0) =~= ta && tb.skip(0) =~= tb);
    while k < a_len && k < b_len && chars_eq(&a[k], &b[k])
        invariant
            k <= a_len <= a.len(),
            k <= b_len <= b.len(),
            ta == texts(a@).take(a_len as int),
            tb == texts(b@).take(b_len as int),
            common_prefix_len(ta, tb) == k + common_prefix_len(ta.skip(k as int), tb.skip(k as int)),
        decreases a_len - k,
    {
        proof {
            let sa = ta.skip(k as int);
            let sb = tb.skip(k as int);
            assert(sa[0] == a@[k as int]@);
            assert(sb[0] == b@[k as int]@);
            assert(sa.drop_first() =~= ta.skip(k + 1));
            assert(sb.drop_first() =~= tb.skip(k + 1));
        }
        k += 1;
    }
    proof {
        let sa = ta.skip(k as int);
        let sb = tb.skip(k as int);
        if sa.len() > 0 && sb.len() > 0 {
            assert(sa[0] == a@[k as int]@);
            assert(sb[0] == b@[k as int]@);
        }
    }
    k
}

fn cap(x: usize) -> (r: i64)
    ensures
        r == capped(x as nat),
{
    if x > SCORE_CAP {
        SCORE_CAP as i64
    } else {
        x as i64
    }
}

/// The final name of `p` as characters, or none when it has none.
fn name_chars(p: &str) -> (r: Vec<char>)
    ensures
        r@ == name_or_empty(p@),
{
    match file_name(p) {
        Some(n) => n,
        None => {
            let v: Vec<char> = Vec::new();
            assert(v@ =~= Seq::<char>::empty());
            v
        },
    }
}

/// `c` describes the candidate at `path` for the target `target` among the
/// candidates `paths`.
pub open spec fn scored_as(c: ScoredCandidate, path: Seq<char>, target: Seq<char>, paths: Seq<Seq<char>>) -> bool {
    &&& c.path@ == path
    &&& c.shared_dirs == shared_dirs_spec(path, target)
    &&& c.basename_count == count_named(paths, file_name_spec(target))
    &&& c.score_hundredths == candidate_score(path, target)
}

/// The candidates at `paths` for a link whose target was `target`, in the
/// same order, each with the directories it shares with the target, how
/// many of `paths` carry exactly the target's name, and its score.
pub fn score_candidates(target: &str, paths: &Vec<String>) -> (r: Vec<ScoredCandidate>)
    ensures
        r.len() == paths.len(),
        forall|i: int|
            0 <= i < paths.len() ==> scored_as(#[trigger] r@[i], paths@[i]@, target@, strings(paths@)),
{
    let name = file_name(target);
    let ghost tname = file_name_spec(target@);
    let mut named: usize = 0;
    let mut i: usize = 0;
    while i < paths.len()
        invariant
            i <= paths.len(),
            named <= i,
            named == count_named(strings(paths@).take(i as int), tname),
            tname == file_name_spec(target@),
            match name {
                Some(n) => tname == Some(n@),
                None => tname is None,
            },
        decreases paths.len() - i,
    {
        assert(strings(paths@).take(i + 1).drop_last() =~= strings(paths@).take(i as int));
        assert(strings(paths@).take(i + 1).last() == paths@[i as int]@);
        if let Some(n) = &name {
            if let Some(pn) = file_name(paths[i].as_str()) {
                if chars_eq(&pn, n) {
                    named += 1;
                }
            }
        }
        i += 1;
    }
    assert(strings(paths@).take(paths.len() as int) =~= strings(paths@));
    let tname_chars = name_chars(target);
    let tc = components_of(target);
    let t_dirs = if tc.len() > 0 { tc.len() - 1 } else { 0 };
    assert(texts(tc@).take(t_dirs as int) =~= dir_components(target@));
    let mut out: Vec<ScoredCandidate> = Vec::new();
    let mut j: usize = 0;
    while j < paths.len()
        invariant
            j <= paths.len(),
            out.len() == j,
            named == count_named(strings(paths@), file_name_spec(target@)),
            t_dirs <= tc.len(),
            texts(tc@).take(t_dirs as int) == dir_components(target@),
            tname_chars@ == name_or_empty(target@),
            forall|k: int|
                0 <= k < j ==> scored_as(#[trigger] out@[k], paths@[k]@, target@, strings(paths@)),
        decreases paths.len() - j,
    {
        let p = &paths[j];
        let pc = components_of(p.as_str());
        let p_dirs = if pc.len() > 0 { pc.len() - 1 } else { 0 };
        assert(texts(pc@).take(p_dirs as int) =~= dir_components(p@));
        let shared = count_shared(&pc, &tc, p_dirs, t_dirs);
        let pname = name_chars(p.as_str());
        let dist = edit_distance_of(&pname, &tname_chars);
        let score: i64 = 100 * cap(dist) + 10 * cap(p_dirs) - 50 * cap(shared);
        out.push(ScoredCandidate {
            path: p.clone(),
            score_hundredths: score,
            shared_dirs: shared,
            basename_count: named,
        });
        j += 1;
    }
    out
}

/// `c` placed into the ranked list `s`: after every candidate whose score
/// is not higher.
pub open spec fn insert_ranked(s: Seq<ScoredCandidate>, c: ScoredCandidate) -> Seq<ScoredCandidate>
    decreases s.len(),
{
    if s.len() == 0 || s.last().score_hundredths <= c.score_hundredths {
        s.push(c)
    } else {
        insert_ranked(s.drop_last(), c).push(s.last())
    }
}

/// `s` ranked by score, best (lowest) first; candidates with equal scores
/// keep their order.
pub open spec fn ranked(s: Seq<ScoredCandidate>) -> Seq<ScoredCandidate>
    decreases s.len(),
{
    if s.len() == 0 {
        s
    } else {
        insert_ranked(ranked(s.drop_last()), s.last())
    }
}

/// Scores never decrease along `s`.
pub open spec fn is_ranked(s: Seq<ScoredCandidate>) -> bool {
    forall|i: int, j: int|
        0 <= i < j < s.len() ==> #[trigger] s[i].score_hundredths <= #[trigger] s[j].score_hundredths
}

proof fn lemma_insert_ranked(s: Seq<ScoredCandidate>, c: ScoredCandidate)
    requires
        is_ranked(s),
    ensures
        is_ranked(insert_ranked(s, c)),
        insert_ranked(s, c).to_multiset() == s.to_multiset().insert(c),
        insert_ranked(s, c).len() == s.len() + 1,
        forall|x: ScoredCandidate| #[trigger] insert_ranked(s, c).contains(x) ==> x == c || s.contains(x),
    decreases s.len(),
{
    broadcast use vstd::seq_lib::group_to_multiset_ensures;
    if s.len() == 0 || s.last().score_hundredths <= c.score_hundredths {
        assert(is_ranked(s.push(c))) by {
            assert forall|i: int, j: int|
                0 <= i < j < s.push(c).len() implies #[trigger] s.push(c)[i].score_hundredths
                <= #[trigger] s.push(c)[j].score_hundredths by {
                if j == s.len() && i < s.len() {
                    assert(s[i].score_hundredths <= s.last().score_hundredths);
                }
            }
        }
    } else {
        let t = s.drop_last();
        assert(is_ranked(t));
        lemma_insert_ranked(t, c);
        let u = insert_ranked(t, c);
        assert forall|x: ScoredCandidate| #[trigger] u.contains(x) implies x.score_hundredths
            <= s.last().score_hundredths by {
            if x != c {
                let k = choose|k: int| 0 <= k < t.len() && t[k] == x;
                assert(t[k] == s[k]);
            }
        }
        assert(is_ranked(u.push(s.last()))) by {
            assert forall|i: int, j: int|
                0 <= i < j < u.push(s.last()).len() implies #[trigger] u.push(s.last())[i].score_hundredths
                <= #[trigger] u.push(s.last())[j].score_hundredths by {
                if j == u.len() {
                    assert(u.contains(u[i]));
                }
            }
        }
        assert(s =~= t.push(s.last()));
        assert forall|x: ScoredCandidate| #[trigger] u.push(s.last()).contains(x) implies x == c
            || s.contains(x) by {
            if x != s.last() {
                let k = choose|k: int| 0 <= k < u.push(s.last()).len() && u.push(s.last())[k] == x;
                assert(u.contains(u[k]));
                if x != c {
                    let q = choose|q: int| 0 <= q < t.len() && t[q] == x;
                    assert(s[q] == x);
                }
            } else {
                assert(s[s.len() - 1] == x);
            }
        }
    }
}

/// Ranking orders the candidates by score, best first, and keeps every one
/// of them, no more and no fewer.
pub proof fn lemma_ranked(s: Seq<ScoredCandidate>)
    ensures
        is_ranked(ranked(s)),
        ranked(s).to_multiset() == s.to_multiset(),
        ranked(s).len() == s.len(),
    decreases s.len(),
{
    broadcast use vstd::seq_lib::group_to_multiset_ensures;
    if s.len() > 0 {
        lemma_ranked(s.drop_last());
        lemma_insert_ranked(ranked(s.drop_last()), s.last());
        assert(s =~= s.drop_last().push(s.last()));
    } else {
        assert(ranked(s).to_multiset() =~= s.to_multiset());
    }
}

/// Where `insert_ranked` places `c` into `s`.
spec fn insert_pos(s: Seq<ScoredCandidate>, c: ScoredCandidate) -> nat
    decreases s.len(),
{
    if s.len() == 0 || s.last().score_hundredths <= c.score_hundredths {
        s.len()
    } else {
        insert_pos(s.drop_last(), c)
    }
}

proof fn lemma_insert_shape(s: Seq<ScoredCandidate>, c: ScoredCandidate)
    ensures
        insert_pos(s, c) <= s.len(),
        insert_ranked(s, c) == s.take(insert_pos(s, c) as int) + seq![c] + s.skip(
            insert_pos(s, c) as int,
        ),
        forall|k: int|
            insert_pos(s, c) <= k < s.len() ==> #[trigger] s[k].score_hundredths
                > c.score_hundredths,
    decreases s.len(),
{
    if s.len() == 0 || s.last().score_hundredths <= c.score_hundredths {
        assert(s.take(s.len() as int) =~= s);
        assert(s.skip(s.len() as int) =~= Seq::<ScoredCandidate>::empty());
        assert(s.push(c) =~= s + seq![c] + Seq::<ScoredCandidate>::empty());
    } else {
        let t = s.drop_last();
        lemma_insert_shape(t, c);
        let pos = insert_pos(t, c) as int;
        assert(t.take(pos) =~= s.take(pos));
        assert(t.skip(pos).push(s.last()) =~= s.skip(pos));
        assert((t.take(pos) + seq![c] + t.skip(pos)).push(s.last()) =~= s.take(pos) + seq![c]
            + s.skip(pos));
        assert forall|k: int| pos <= k < s.len() implies #[trigger] s[k].score_hundredths
            > c.score_hundredths by {
            if k < s.len() - 1 {
                assert(s[k] == t[k]);
            }
        }
    }
}

/// Ranking is stable: of two candidates with equal scores, the one that came
/// first still comes first.
pub proof fn lemma_ranked_stable(s: Seq<ScoredCandidate>, i: int, j: int)
    requires
        0 <= i < j < s.len(),
        s[i].score_hundredths == s[j].score_hundredths,
    ensures
        exists|p: int, q: int|
            0 <= p < q < ranked(s).len() && #[trigger] ranked(s)[p] == s[i] && #[trigger] ranked(
                s,
            )[q] == s[j],
    decreases s.len(),
{
    broadcast use vstd::seq_lib::group_to_multiset_ensures;
    let t = s.drop_last();
    let r = ranked(t);
    let c = s.last();
    lemma_insert_shape(r, c);
    lemma_ranked(t);
    let pos = insert_pos(r, c) as int;
    let out = ranked(s);
    assert(out == r.take(pos) + seq![c] + r.skip(pos));
    assert(t[i] == s[i]);
    if j < s.len() - 1 {
        assert(t[j] == s[j]);
        lemma_ranked_stable(t, i, j);
        let (p, q) = choose|p: int, q: int|
            0 <= p < q < r.len() && #[trigger] r[p] == s[i] && #[trigger] r[q] == s[j];
        let p2 = if p < pos { p } else { p + 1 };
        let q2 = if q < pos { q } else { q + 1 };
        assert(out[p2] == r[p]);
        assert(out[q2] == r[q]);
    } else {
        assert(t.contains(s[i])) by {
            assert(t[i] == s[i]);
        }
        assert(t.to_multiset().count(s[i]) > 0);
        assert(r.to_multiset().count(s[i]) > 0);
        assert(r.contains(s[i]));
        let p = choose|p: int| 0 <= p < r.len() && r[p] == s[i];
        assert(p < pos) by {
            if p >= pos {
                assert(r[p].score_hundredths > c.score_hundredths);
            }
        }
        assert(out[p] == r[p]);
        assert(out[pos] == c);
        assert(c == s[j]);
    }
}

/// Places `c` into the ranked list `v`.
fn insert_by_score(v: &mut Vec<ScoredCandidate>, c: ScoredCandidate)
    ensures
        final(v)@ == insert_ranked(old(v)@, c),
{
    let ghost s = v@;
    let mut pos = v.len();
    assert(s.take(pos as int) =~= s);
    assert(insert_ranked(s, c) + s.skip(pos as int) =~= insert_ranked(s, c));
    while pos > 0 && v[pos - 1].score_hundredths > c.score_hundredths
        invariant
            pos <= v.len(),
            v@ == s,
            insert_ranked(s, c) == insert_ranked(s.take(pos as int), c) + s.skip(pos as int),
        decreases pos,
    {
        let ghost t = s.take(pos as int);
        assert(t.drop_last() =~= s.take(pos - 1));
        assert(t.last() == s[pos - 1]);
        assert(s.skip(pos - 1) =~= seq![s[pos - 1]] + s.skip(pos as int));
        assert(insert_ranked(t, c) == insert_ranked(s.take(pos - 1), c).push(s[pos - 1]));
        assert(insert_ranked(s.take(pos - 1), c).push(s[pos - 1]) + s.skip(pos as int)
            =~= insert_ranked(s.take(pos - 1), c) + s.skip(pos - 1));
        pos -= 1;
    }
    assert(insert_ranked(s.take(pos as int), c) == s.take(pos as int).push(c));
    v.insert(pos, c);
    assert(v@ =~= insert_ranked(s, c));
}

/// `v` ranked by score, best (lowest) first; equal scores keep their order.
pub fn rank_candidates(v: Vec<ScoredCandidate>) -> (r: Vec<ScoredCandidate>)
    ensures
        r@ == ranked(v@),
{
    let mut r: Vec<ScoredCandidate> = Vec::new();
    let mut v = v;
    let ghost all = v@;
    let n = v.len();
    let mut i: usize = 0;
    assert(all.skip(0) =~= all);
    while i < n
        invariant
            i <= n == all.len(),
            v@ == all.skip(i as int),
            r@ == ranked(all.take(i as int)),
        decreases n - i,
    {
        let c = v.remove(0);
        assert(c == all[i as int]);
        assert(all.take(i + 1).drop_last() =~= all.take(i as int));
        assert(all.take(i + 1).last() == all[i as int]);
        assert(v@ =~= all.skip(i + 1));
        insert_by_score(&mut r, c);
        i += 1;
    }
    assert(all.take(n as int) =~= all);
    r
}

/// The repair case for `broken`: its candidates among the entries of a walk
/// of `search_root`, ignored directories left out (see `find_candidates`),
/// each scored, ranked by score with the best first.
pub fn repair_case(broken: &BrokenSymlink, search_root: &str, ignore: &Vec<String>, entries: &Vec<WalkEntry>) -> (r: RepairCase)
    ensures
        r.link@ == broken.link@,
        r.original_target@ == broken.target@,
        exists|scored: Seq<ScoredCandidate>|
            {
                &&& scored.len() == candidates_spec(entries@, scope_of(broken.link@, search_root@, ignore@), broken.target@).len()
                &&& forall|i: int|
                    0 <= i < scored.len() ==> scored_as(
                        #[trigger] scored[i],
                        candidates_spec(entries@, scope_of(broken.link@, search_root@, ignore@), broken.target@)[i],
                        broken.target@,
                        candidates_spec(entries@, scope_of(broken.link@, search_root@, ignore@), broken.target@),
                    )
                &&& r.candidates@ == ranked(scored)
            },
{
    let paths = find_candidates(broken, search_root, ignore, entries);
    let scored = score_candidates(broken.target.as_str(), &paths);
    let ghost sv = scored@;
    let ranked_list = rank_candidates(scored);
    let r = RepairCase::new(broken.link.clone(), broken.target.clone(), ranked_list);
    assert(forall|i: int| 0 <= i < sv.len() ==> scored_as(#[trigger] sv[i], paths@[i]@, broken.target@, strings(paths@)));
    assert(forall|i: int| 0 <= i < sv.len() ==> #[trigger] strings(paths@)[i] == paths@[i]@);
    r
}

} // verus!
