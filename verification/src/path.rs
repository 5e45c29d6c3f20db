//! Unix path syntax over the characters of a path: its components, its final
//! name, its parent, joining, and equality of paths component by component.
//!
//! A component is kept as its text: the root is `/`, the current directory
//! `.`, the parent directory `..`, and any other component its name. A name
//! never holds `/` and is never empty or `.`, so the text tells the kinds
//! apart.

use vstd::prelude::*;
use crate::text::{chars_eq, chars_of, push_char, push_chars, sub_chars};

verus! {

// ---------------------------------------------------------------------------
// Specifications
// ---------------------------------------------------------------------------

/// The pieces of `s` between separators (`/`), empty ones included.
pub open spec fn split_sep(s: Seq<char>) -> Seq<Seq<char>>
    decreases s.len(),
{
    if s.len() == 0 {
        seq![Seq::<char>::empty()]
    } else {
        let r = split_sep(s.drop_last());
        if s.last() == '/' {
            r.push(Seq::<char>::empty())
        } else {
            r.update(r.len() - 1, r.last().push(s.last()))
        }
    }
}

pub open spec fn root_text() -> Seq<char> {
    seq!['/']
}

pub open spec fn cur_dir_text() -> Seq<char> {
    seq!['.']
}

pub open spec fn parent_dir_text() -> Seq<char> {
    seq!['.', '.']
}

/// A piece that stands as a component of its own: not empty and not `.`.
pub open spec fn is_body_piece(p: Seq<char>) -> bool {
    p.len() > 0 && p != cur_dir_text()
}

/// The pieces of `pieces` that are components, in order.
pub open spec fn body_pieces(pieces: Seq<Seq<char>>) -> Seq<Seq<char>>
    decreases pieces.len(),
{
    if pieces.len() == 0 {
        pieces
    } else {
        let r = body_pieces(pieces.drop_last());
        if is_body_piece(pieces.last()) {
            r.push(pieces.last())
        } else {
            r
        }
    }
}

/// The texts held by a list of character vectors.
pub open spec fn texts(v: Seq<Vec<char>>) -> Seq<Seq<char>> {
    v.map_values(|x: Vec<char>| x@)
}

/// The path starts at the root.
pub open spec fn is_absolute_spec(s: Seq<char>) -> bool {
    s.len() > 0 && s[0] == '/'
}

/// A relative path that starts with the current directory: `.` or `./...`.
pub open spec fn starts_at_cur_dir(s: Seq<char>) -> bool {
    &&& !is_absolute_spec(s)
    &&& s.len() > 0
    &&& s[0] == '.'
    &&& (s.len() == 1 || s[1] == '/')
}

/// The components of a path (`Path::components` on Unix): the root or a
/// leading current directory, then every piece between separators that is
/// neither empty nor `.`.
pub open spec fn components(s: Seq<char>) -> Seq<Seq<char>> {
    let head = if is_absolute_spec(s) {
        seq![root_text()]
    } else if starts_at_cur_dir(s) {
        seq![cur_dir_text()]
    } else {
        Seq::<Seq<char>>::empty()
    };
    head + body_pieces(split_sep(s))
}

/// A component that names an entry: not the root, `.` or `..`.
pub open spec fn is_normal(c: Seq<char>) -> bool {
    c != root_text() && c != cur_dir_text() && c != parent_dir_text()
}

/// `Path::file_name`: the final component when it names an entry.
pub open spec fn file_name_spec(s: Seq<char>) -> Option<Seq<char>> {
    let c = components(s);
    if c.len() > 0 && is_normal(c.last()) {
        Some(c.last())
    } else {
        None
    }
}

/// Two paths are equal when their components are (`Path`'s `==`).
pub open spec fn same_path_spec(a: Seq<char>, b: Seq<char>) -> bool {
    components(a) == components(b)
}

/// `parts` written one after another with a separator between neighbours.
pub open spec fn join_parts(parts: Seq<Seq<char>>) -> Seq<char>
    decreases parts.len(),
{
    if parts.len() == 0 {
        Seq::<char>::empty()
    } else if parts.len() == 1 {
        parts[0]
    } else {
        join_parts(parts.drop_last()) + seq!['/'] + parts.last()
    }
}

/// The path that a list of components writes.
pub open spec fn render(comps: Seq<Seq<char>>) -> Seq<char> {
    if comps.len() > 0 && comps[0] == root_text() {
        root_text() + join_parts(comps.drop_first())
    } else {
        join_parts(comps)
    }
}

/// `Path::parent`: the path without its final component; none when the path
/// is empty or ends in the root.
pub open spec fn parent_spec(s: Seq<char>) -> Option<Seq<char>> {
    let c = components(s);
    if c.len() == 0 || c.last() == root_text() {
        None
    } else {
        Some(render(c.drop_last()))
    }
}

/// The directory a relative symlink target is read against: the link's
/// parent, or `.` when it has none.
pub open spec fn parent_or_cur_dir(s: Seq<char>) -> Seq<char> {
    match parent_spec(s) {
        Some(p) => p,
        None => cur_dir_text(),
    }
}

/// `Path::join`: a relative `tail` goes below `base` (with a separator when
/// `base` is not empty and does not end in one); an absolute `tail` replaces
/// `base`.
pub open spec fn join_spec(base: Seq<char>, tail: Seq<char>) -> Seq<char> {
    if is_absolute_spec(tail) {
        tail
    } else if base.len() == 0 || base.last() == '/' {
        base + tail
    } else {
        base + seq!['/'] + tail
    }
}

proof fn lemma_split_sep_nonempty(s: Seq<char>)
    ensures
        split_sep(s).len() >= 1,
    decreases s.len(),
{
    if s.len() > 0 {
        lemma_split_sep_nonempty(s.drop_last());
    }
}

/// Appending text without a separator extends the last piece.
proof fn lemma_split_sep_extend(x: Seq<char>, n: Seq<char>)
    requires
        forall|k: int| 0 <= k < n.len() ==> n[k] != '/',
    ensures
        split_sep(x + n) == split_sep(x).update(split_sep(x).len() - 1, split_sep(x).last() + n),
    decreases n.len(),
{
    lemma_split_sep_nonempty(x);
    let sx = split_sep(x);
    if n.len() == 0 {
        assert(x + n =~= x);
        assert(sx.last() + n =~= sx.last());
        assert(sx.update(sx.len() - 1, sx.last()) =~= sx);
    } else {
        lemma_split_sep_extend(x, n.drop_last());
        assert((x + n).drop_last() =~= x + n.drop_last());
        assert((x + n).last() == n.last());
        let r = split_sep(x + n.drop_last());
        assert(r.last() == sx.last() + n.drop_last());
        assert(r.last().push(n.last()) =~= sx.last() + n);
        assert(r.update(r.len() - 1, r.last().push(n.last())) =~= sx.update(
            sx.len() - 1,
            sx.last() + n,
        ));
    }
}

/// `n` is the name of one entry: not empty, without a separator, and
/// neither `.` nor `..`.
pub open spec fn is_plain_name(n: Seq<char>) -> bool {
    &&& n.len() > 0
    &&& forall|k: int| 0 <= k < n.len() ==> n[k] != '/'
    &&& n != cur_dir_text()
    &&& n != parent_dir_text()
}

/// The final name of a path joined with a plain name is that name, whatever
/// the base.
pub proof fn lemma_join_name(base: Seq<char>, n: Seq<char>)
    requires
        is_plain_name(n),
    ensures
        file_name_spec(join_spec(base, n)) == Some(n),
{
    assert(!is_absolute_spec(n));
    let x = if base.len() == 0 || base.last() == '/' {
        base
    } else {
        base.push('/')
    };
    assert(join_spec(base, n) == x + n) by {
        if !(base.len() == 0 || base.last() == '/') {
            assert(base + seq!['/'] + n =~= base.push('/') + n);
        }
    }
    lemma_split_sep_nonempty(x);
    let sx = split_sep(x);
    assert(sx.last() == Seq::<char>::empty()) by {
        if x.len() > 0 {
            assert(x.last() == '/');
        }
    }
    lemma_split_sep_extend(x, n);
    let sj = split_sep(x + n);
    assert(sj.last() == sx.last() + n);
    assert(sx.last() + n =~= n);
    assert(sj.len() > 0 && sj.last() == n);
    assert(n != root_text()) by {
        assert(n[0] != '/');
    }
    assert(is_body_piece(n));
    let b = body_pieces(sj);
    assert(b == body_pieces(sj.drop_last()).push(n));
    let c = components(x + n);
    assert(c.last() == n);
}

/// A separator at the end of a path changes nothing: the path names the
/// same place as without it.
pub proof fn lemma_trailing_separator(a: Seq<char>)
    requires
        a.len() > 0,
    ensures
        same_path_spec(a.push('/'), a),
{
    let t = a.push('/');
    assert(t.drop_last() =~= a);
    assert(t[0] == a[0]);
    if a.len() >= 2 {
        assert(t[1] == a[1]);
    }
    lemma_split_sep_nonempty(a);
    assert(split_sep(t) == split_sep(a).push(Seq::<char>::empty()));
    assert(split_sep(t).drop_last() =~= split_sep(a));
    assert(body_pieces(split_sep(t)) == body_pieces(split_sep(a)));
}

// ---------------------------------------------------------------------------
// Executable functions
// ---------------------------------------------------------------------------

/// Whether the path is absolute (`Path::is_absolute` on Unix).
pub fn is_absolute(s: &str) -> (r: bool)
    ensures
        r == is_absolute_spec(s@),
{
    let cs = chars_of(s);
    cs.len() > 0 && cs[0] == '/'
}

/// The body components of `cs`: the pieces between separators that are
/// neither empty nor `.`.
fn body_components(cs: &Vec<char>) -> (r: Vec<Vec<char>>)
    ensures
        texts(r@) == body_pieces(split_sep(cs@)),
{
    let mut out: Vec<Vec<char>> = Vec::new();
    let mut cur: Vec<char> = Vec::new();
    let mut i: usize = 0;
    assert(cs@.take(0) =~= Seq::<char>::empty());
    while i < cs.len()
        invariant
            i <= cs.len(),
            split_sep(cs@.take(i as int)).len() >= 1,
            texts(out@) == body_pieces(split_sep(cs@.take(i as int)).drop_last()),
            cur@ == split_sep(cs@.take(i as int)).last(),
        decreases cs.len() - i,
    {
        let ghost before = split_sep(cs@.take(i as int));
        let c = cs[i];
        assert(cs@.take(i + 1).drop_last() =~= cs@.take(i as int));
        if c == '/' {
            let keep = cur.len() > 0 && !(cur.len() == 1 && cur[0] == '.');
            proof {
                assert(keep == is_body_piece(cur@)) by {
                    if cur@ == cur_dir_text() {
                        assert(cur@.len() == 1 && cur@[0] == '.');
                    }
                    if cur@.len() == 1 && cur@[0] == '.' {
                        assert(cur@ =~= cur_dir_text());
                    }
                }
                assert(before.drop_last().push(before.last()) =~= before);
            }
            let ghost old_out = texts(out@);
            if keep {
                out.push(cur);
                assert(texts(out@) =~= old_out.push(before.last()));
            }
            cur = Vec::new();
            proof {
                assert(split_sep(cs@.take(i + 1)) == before.push(Seq::<char>::empty()));
                assert(split_sep(cs@.take(i + 1)).drop_last() =~= before);
            }
        } else {
            cur.push(c);
            proof {
                assert(split_sep(cs@.take(i + 1)).drop_last() =~= before.drop_last());
            }
        }
        i += 1;
    }
    assert(cs@.take(cs.len() as int) =~= cs@);
    let ghost segs = split_sep(cs@);
    let keep = cur.len() > 0 && !(cur.len() == 1 && cur[0] == '.');
    proof {
        assert(keep == is_body_piece(cur@)) by {
            if cur@ == cur_dir_text() {
                assert(cur@.len() == 1 && cur@[0] == '.');
            }
            if cur@.len() == 1 && cur@[0] == '.' {
                assert(cur@ =~= cur_dir_text());
            }
        }
    }
    let ghost old_out = texts(out@);
    if keep {
        out.push(cur);
        assert(texts(out@) =~= old_out.push(segs.last()));
    }
    out
}

/// The components of a path (`Path::components` on Unix), each as its text.
pub fn components_of(s: &str) -> (r: Vec<Vec<char>>)
    ensures
        texts(r@) == components(s@),
{
    let cs = chars_of(s);
    let body = body_components(&cs);
    let mut r: Vec<Vec<char>> = Vec::new();
    if cs.len() > 0 && cs[0] == '/' {
        let root = vec!['/'];
        assert(root@ =~= root_text());
        r.push(root);
    } else if cs.len() > 0 && cs[0] == '.' && (cs.len() == 1 || cs[1] == '/') {
        let cur = vec!['.'];
        assert(cur@ =~= cur_dir_text());
        r.push(cur);
    }
    let ghost head = texts(r@);
    let mut i: usize = 0;
    while i < body.len()
        invariant
            i <= body.len(),
            texts(r@) == head + texts(body@).take(i as int),
        decreases body.len() - i,
    {
        let piece = sub_chars(&body[i], 0, body[i].len());
        assert(piece@ =~= body@[i as int]@);
        assert(texts(body@)[i as int] == body@[i as int]@);
        let ghost old_r = r@;
        r.push(piece);
        assert(texts(r@) =~= texts(old_r).push(piece@));
        i += 1;
        assert(texts(r@) =~= head + texts(body@).take(i as int));
    }
    assert(texts(body@).take(body.len() as int) =~= texts(body@));
    assert(head =~= (if is_absolute_spec(s@) {
        seq![root_text()]
    } else if starts_at_cur_dir(s@) {
        seq![cur_dir_text()]
    } else {
        Seq::<Seq<char>>::empty()
    }));
    r
}

fn same_components(a: &Vec<Vec<char>>, b: &Vec<Vec<char>>) -> (r: bool)
    ensures
        r == (texts(a@) == texts(b@)),
{
    if a.len() != b.len() {
        assert(texts(a@).len() != texts(b@).len());
        return false;
    }
    let mut i: usize = 0;
    while i < a.len()
        invariant
            i <= a.len() == b.len(),
            forall|j: int| 0 <= j < i ==> texts(a@)[j] == texts(b@)[j],
        decreases a.len() - i,
    {
        if !chars_eq(&a[i], &b[i]) {
            assert(texts(a@)[i as int] != texts(b@)[i as int]);
            return false;
        }
        i += 1;
    }
    assert(texts(a@) =~= texts(b@));
    true
}

/// Whether two paths are equal component by component (`Path`'s `==`).
pub fn same_path(a: &str, b: &str) -> (r: bool)
    ensures
        r == same_path_spec(a@, b@),
{
    let ca = components_of(a);
    let cb = components_of(b);
    same_components(&ca, &cb)
}

fn is_normal_component(c: &Vec<char>) -> (r: bool)
    ensures
        r == is_normal(c@),
{
    let root = vec!['/'];
    let cur = vec!['.'];
    let up = vec!['.', '.'];
    assert(root@ =~= root_text() && cur@ =~= cur_dir_text() && up@ =~= parent_dir_text());
    !chars_eq(c, &root) && !chars_eq(c, &cur) && !chars_eq(c, &up)
}

/// The final component of a path when it names an entry (`Path::file_name`).
pub fn file_name(s: &str) -> (r: Option<Vec<char>>)
    ensures
        match r {
            Some(n) => file_name_spec(s@) == Some(n@),
            None => file_name_spec(s@) is None,
        },
{
    let c = components_of(s);
    if c.len() > 0 && is_normal_component(&c[c.len() - 1]) {
        let last = &c[c.len() - 1];
        let name = sub_chars(last, 0, last.len());
        assert(name@ =~= texts(c@).last());
        Some(name)
    } else {
        None
    }
}

proof fn lemma_join_parts_step(parts: Seq<Seq<char>>, from: int, j: int)
    requires
        0 <= from <= j < parts.len(),
    ensures
        join_parts(parts.subrange(from, j + 1)) == if j == from {
            parts[j]
        } else {
            join_parts(parts.subrange(from, j)) + seq!['/'] + parts[j]
        },
{
    let s = parts.subrange(from, j + 1);
    assert(s.drop_last() =~= parts.subrange(from, j));
    assert(s.last() == parts[j]);
    if j == from {
        assert(s.len() == 1);
    }
}

/// Appends the components `comps[from..to]` with separators between them.
fn push_joined(out: &mut String, comps: &Vec<Vec<char>>, from: usize, to: usize)
    requires
        from <= to <= comps.len(),
    ensures
        final(out)@ == old(out)@ + join_parts(texts(comps@).subrange(from as int, to as int)),
{
    let ghost parts = texts(comps@);
    let mut j = from;
    assert(parts.subrange(from as int, from as int) =~= Seq::<Seq<char>>::empty());
    assert(out@ =~= old(out)@ + join_parts(parts.subrange(from as int, j as int)));
    while j < to
        invariant
            from <= j <= to <= comps.len(),
            parts == texts(comps@),
            out@ == old(out)@ + join_parts(parts.subrange(from as int, j as int)),
        decreases to - j,
    {
        proof {
            lemma_join_parts_step(parts, from as int, j as int);
        }
        if j > from {
            push_char(out, '/');
        }
        let c = &comps[j];
        assert(parts[j as int] == c@);
        push_chars(out, c, 0, c.len());
        assert(c@.subrange(0, c@.len() as int) =~= c@);
        j += 1;
        assert(out@ =~= old(out)@ + join_parts(parts.subrange(from as int, j as int)));
    }
}

/// The path that the first `k` components of `comps` write.
fn render_prefix(comps: &Vec<Vec<char>>, k: usize) -> (r: String)
    requires
        k <= comps.len(),
    ensures
        r@ == render(texts(comps@).take(k as int)),
{
    let ghost parts = texts(comps@).take(k as int);
    let mut r = String::new();
    if k > 0 && comps[0].len() == 1 && comps[0][0] == '/' {
        assert(parts[0] =~= root_text());
        push_char(&mut r, '/');
        push_joined(&mut r, comps, 1, k);
        assert(texts(comps@).subrange(1, k as int) =~= parts.drop_first());
    } else {
        proof {
            if k > 0 && parts[0] == root_text() {
                assert(parts[0].len() == 1 && parts[0][0] == '/');
            }
        }
        push_joined(&mut r, comps, 0, k);
        assert(texts(comps@).subrange(0, k as int) =~= parts);
    }
    assert(r@ =~= render(parts));
    r
}

/// The path without its final component (`Path::parent`); none when the
/// path is empty or ends in the root.
pub fn parent(s: &str) -> (r: Option<String>)
    ensures
        match r {
            Some(p) => parent_spec(s@) == Some(p@),
            None => parent_spec(s@) is None,
        },
{
    let c = components_of(s);
    let n = c.len();
    if n == 0 {
        return None;
    }
    let last = &c[n - 1];
    if last.len() == 1 && last[0] == '/' {
        assert(texts(c@).last() =~= root_text());
        return None;
    }
    proof {
        if texts(c@).last() == root_text() {
            assert(last@.len() == 1 && last@[0] == '/');
        }
    }
    let p = render_prefix(&c, n - 1);
    assert(texts(c@).take(n - 1) =~= texts(c@).drop_last());
    Some(p)
}

/// `tail` read against `base` (`Path::join`).
pub fn join(base: &str, tail: &str) -> (r: String)
    ensures
        r@ == join_spec(base@, tail@),
{
    let b = chars_of(base);
    let t = chars_of(tail);
    let mut r = String::new();
    if t.len() > 0 && t[0] == '/' {
        push_chars(&mut r, &t, 0, t.len());
    } else {
        push_chars(&mut r, &b, 0, b.len());
        if b.len() > 0 && b[b.len() - 1] != '/' {
            push_char(&mut r, '/');
        }
        push_chars(&mut r, &t, 0, t.len());
    }
    assert(b@.subrange(0, b@.len() as int) =~= b@);
    assert(t@.subrange(0, t@.len() as int) =~= t@);
    assert(r@ =~= join_spec(base@, tail@));
    r
}

} // verus!
