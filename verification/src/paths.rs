//! Paths as texts. The parts of a path stand between forward slashes, and a path that
//! begins with one begins at the root of the file system. Where a system writes its paths
//! otherwise, the caller brings them into this form or refuses them.

use vstd::prelude::*;
use vstd::slice::slice_subrange;
use crate::pieces::{join, joined, push_text, replace_char, replaced_char, split, split_on, texts};
use crate::text::{chars_of, same_text};

verus! {

/// The path begins at the root of the file system.
pub open spec fn is_rooted(path: Seq<char>) -> bool {
    path.len() > 0 && path[0] == '/'
}

/// Whether the path begins at the root of the file system.
pub fn is_absolute(path: &str) -> (r: bool)
    ensures
        r == is_rooted(path@),
{
    let v = chars_of(path);
    v.len() > 0 && v[0] == '/'
}

/// A path taken from inside a directory.
pub open spec fn path_in(dir: Seq<char>, path: Seq<char>) -> Seq<char> {
    if is_rooted(path) || dir.len() == 0 {
        path
    } else if dir.last() == '/' {
        dir + path
    } else {
        dir.push('/') + path
    }
}

/// The path, taken from inside the directory.
pub fn join_path(dir: &str, path: &str) -> (r: String)
    ensures
        r@ == path_in(dir@, path@),
{
    let d = chars_of(dir);
    if is_absolute(path) || d.len() == 0 {
        return path.to_owned();
    }
    let mut out = dir.to_owned();
    if d[d.len() - 1] != '/' {
        out.push('/');
    }
    out.append(path);
    out
}

/// A path taken from inside a directory that begins at the root does so too.
pub proof fn law_joined_path_rooted(dir: Seq<char>, path: Seq<char>)
    requires
        is_rooted(dir),
    ensures
        is_rooted(path_in(dir, path)),
{
}

/// The part of a path names something: it is neither empty nor a single dot.
pub open spec fn is_real(part: Seq<char>) -> bool {
    part.len() > 0 && part != seq!['.']
}

/// Whether the part of a path names something.
pub fn names_something(part: &str) -> (r: bool)
    ensures
        r == is_real(part@),
{
    let v = chars_of(part);
    if v.len() == 1 && v[0] == '.' {
        assert(part@ =~= seq!['.']);
        return false;
    }
    proof {
        if part@ == seq!['.'] {
            assert(part@.len() == 1 && part@[0] == '.');
        }
    }
    v.len() > 0
}

/// The parts from the first to the last that names something.
pub open spec fn trimmed_parts(parts: Seq<Seq<char>>) -> Seq<Seq<char>>
    decreases parts.len(),
{
    if parts.len() == 0 {
        parts
    } else if !is_real(parts[0]) {
        trimmed_parts(parts.drop_first())
    } else if !is_real(parts.last()) {
        trimmed_parts(parts.drop_last())
    } else {
        parts
    }
}

/// What is left of the parts of a path when those of a directory above it are taken
/// away; `None` where the path is not below the directory.
pub open spec fn parts_below(dir: Seq<Seq<char>>, path: Seq<Seq<char>>) -> Option<Seq<Seq<char>>>
    decreases dir.len(), path.len(),
{
    if dir.len() > 0 && !is_real(dir[0]) {
        parts_below(dir.drop_first(), path)
    } else if dir.len() == 0 {
        Some(trimmed_parts(path))
    } else if path.len() == 0 {
        None
    } else if !is_real(path[0]) {
        parts_below(dir, path.drop_first())
    } else if dir[0] == path[0] {
        parts_below(dir.drop_first(), path.drop_first())
    } else {
        None
    }
}

/// The path below a directory that begins at the root, from its first to its last part
/// that names something.
pub open spec fn below(dir: Seq<char>, path: Seq<char>) -> Option<Seq<char>> {
    if !is_rooted(path) {
        None
    } else {
        match parts_below(split_on(dir, '/'), split_on(path, '/')) {
            Some(parts) => Some(joined(parts, "/"@)),
            None => None,
        }
    }
}

/// The parts at `from` up to `to`, without those at either end that name nothing.
fn trim_parts(parts: &Vec<String>, from: usize) -> (r: Vec<String>)
    requires
        from <= parts@.len(),
    ensures
        texts(r@) == trimmed_parts(texts(parts@).skip(from as int)),
{
    let ghost all = texts(parts@);
    let mut lo: usize = from;
    let mut hi: usize = parts.len();
    let ghost goal = trimmed_parts(all.skip(from as int));
    assert(all.subrange(from as int, hi as int) =~= all.skip(from as int));
    while lo < hi && !names_something(parts[lo].as_str())
        invariant
            lo <= hi,
            hi == parts@.len(),
            all == texts(parts@),
            trimmed_parts(all.subrange(lo as int, hi as int)) == goal,
        decreases hi - lo,
    {
        assert(all[lo as int] == parts@[lo as int]@);
        assert(all.subrange(lo as int, hi as int).drop_first() =~= all.subrange(lo + 1, hi as int));
        lo += 1;
    }
    while lo < hi && !names_something(parts[hi - 1].as_str())
        invariant
            lo <= hi <= parts@.len(),
            all == texts(parts@),
            lo < hi ==> is_real(all[lo as int]),
            trimmed_parts(all.subrange(lo as int, hi as int)) == goal,
        decreases hi - lo,
    {
        assert(all[hi - 1] == parts@[hi - 1]@);
        assert(all.subrange(lo as int, hi as int).drop_last() =~= all.subrange(lo as int, hi - 1));
        hi -= 1;
    }
    let mut out: Vec<String> = Vec::new();
    let mut i: usize = lo;
    assert(texts(out@) =~= all.subrange(lo as int, lo as int));
    while i < hi
        invariant
            lo <= i <= hi <= parts@.len(),
            all == texts(parts@),
            texts(out@) == all.subrange(lo as int, i as int),
        decreases hi - i,
    {
        assert(all.subrange(lo as int, i + 1) =~= all.subrange(lo as int, i as int).push(
            parts@[i as int]@,
        ));
        push_text(&mut out, parts[i].clone());
        i += 1;
    }
    proof {
        let rest = all.subrange(lo as int, hi as int);
        if lo < hi {
            assert(all[hi - 1] == parts@[hi - 1]@);
            assert(rest[0] == all[lo as int]);
            assert(rest.last() == all[hi - 1]);
        }
        assert(trimmed_parts(rest) == rest);
    }
    out
}

/// What is left of a path when the parts of a directory above it are taken away.
fn strip_parts(dir: &str, path: &str) -> (r: Option<String>)
    ensures
        match r {
            Some(rest) => match parts_below(split_on(dir@, '/'), split_on(path@, '/')) {
                Some(parts) => rest@ == joined(parts, "/"@),
                None => false,
            },
            None => parts_below(split_on(dir@, '/'), split_on(path@, '/')) is None,
        },
{
    let dir_chars = chars_of(dir);
    let path_chars = chars_of(path);
    let dirs = split(dir_chars.as_slice(), '/');
    let parts = split(path_chars.as_slice(), '/');
    let ghost ds = texts(dirs@);
    let ghost ps = texts(parts@);
    let ghost goal = parts_below(ds, ps);
    let mut i: usize = 0;
    let mut j: usize = 0;
    assert(ds.skip(0) =~= ds);
    assert(ps.skip(0) =~= ps);
    while i < dirs.len()
        invariant
            i <= dirs.len(),
            j <= parts.len(),
            ds == texts(dirs@),
            ps == texts(parts@),
            ps == split_on(path@, '/'),
            ds == split_on(dir@, '/'),
            goal == parts_below(ds, ps),
            parts_below(ds.skip(i as int), ps.skip(j as int)) == goal,
        decreases dirs.len() - i + (parts.len() - j),
    {
        assert(ds[i as int] == dirs@[i as int]@);
        assert(ds.skip(i as int).drop_first() =~= ds.skip(i + 1));
        if !names_something(dirs[i].as_str()) {
            i += 1;
            continue;
        }
        if j == parts.len() {
            return None;
        }
        assert(ps[j as int] == parts@[j as int]@);
        assert(ps.skip(j as int).drop_first() =~= ps.skip(j + 1));
        if !names_something(parts[j].as_str()) {
            j += 1;
            continue;
        }
        if !same_text(dirs[i].as_str(), parts[j].as_str()) {
            return None;
        }
        i += 1;
        j += 1;
    }
    assert(ds.skip(i as int).len() == 0);
    let rest = trim_parts(&parts, j);
    Some(join(rest.as_slice(), "/"))
}

/// The path below a directory that begins at the root; `None` where it is not below it.
pub fn strip_dir(dir: &str, path: &str) -> (r: Option<String>)
    requires
        is_rooted(dir@),
    ensures
        match r {
            Some(rest) => below(dir@, path@) == Some(rest@),
            None => below(dir@, path@) is None,
        },
{
    if !is_absolute(path) {
        return None;
    }
    strip_parts(dir, path)
}

/// The path begins with a single dot as a part of its own.
pub open spec fn begins_here(path: Seq<char>) -> bool {
    path.len() > 0 && path[0] == '.' && (path.len() == 1 || path[1] == '/')
}

fn is_begun_here(path: &[char]) -> (r: bool)
    ensures
        r == begins_here(path@),
{
    path.len() > 0 && path[0] == '.' && (path.len() == 1 || path[1] == '/')
}

/// The parts up to the last that names something.
pub open spec fn parts_to_last(parts: Seq<Seq<char>>) -> Seq<Seq<char>>
    decreases parts.len(),
{
    if parts.len() == 0 || is_real(parts.last()) {
        parts
    } else {
        parts_to_last(parts.drop_last())
    }
}

/// The path up to its last part that names something; where none does, what it begins with.
pub open spec fn without_tail(path: Seq<char>) -> Seq<char> {
    let parts = parts_to_last(split_on(path, '/'));
    if parts.len() > 0 {
        joined(parts, "/"@)
    } else if is_rooted(path) {
        "/"@
    } else if begins_here(path) {
        "."@
    } else {
        Seq::empty()
    }
}

fn drop_tail(path: &str) -> (r: String)
    ensures
        r@ == without_tail(path@),
{
    let chars = chars_of(path);
    let parts = split(chars.as_slice(), '/');
    let ghost all = texts(parts@);
    let mut k: usize = parts.len();
    assert(all.take(k as int) =~= all);
    while k > 0 && !names_something(parts[k - 1].as_str())
        invariant
            k <= parts@.len(),
            all == texts(parts@),
            parts_to_last(all.take(k as int)) == parts_to_last(all),
        decreases k,
    {
        assert(all.take(k as int).last() == parts@[k - 1]@);
        assert(all.take(k as int).drop_last() =~= all.take(k - 1));
        k -= 1;
    }
    if k > 0 {
        assert(all.take(k as int).last() == parts@[k - 1]@);
        let kept = slice_subrange(parts.as_slice(), 0, k);
        assert(texts(kept@) =~= all.take(k as int));
        return join(kept, "/");
    }
    if is_absolute(path) {
        return "/".to_owned();
    }
    if is_begun_here(chars.as_slice()) {
        return ".".to_owned();
    }
    String::new()
}

/// The path below any directory: both begin at the root, or with a dot, or neither does.
/// The empty path is above every path.
pub open spec fn below_any(dir: Seq<char>, path: Seq<char>) -> Option<Seq<char>> {
    if dir.len() == 0 {
        Some(without_tail(path))
    } else if is_rooted(dir) != is_rooted(path) || begins_here(dir) != begins_here(path) {
        None
    } else {
        match parts_below(split_on(dir, '/'), split_on(path, '/')) {
            Some(parts) => Some(joined(parts, "/"@)),
            None => None,
        }
    }
}

/// The path below any directory; `None` where it is not below it.
pub fn strip_prefix(dir: &str, path: &str) -> (r: Option<String>)
    ensures
        match r {
            Some(rest) => below_any(dir@, path@) == Some(rest@),
            None => below_any(dir@, path@) is None,
        },
{
    if dir.is_empty() {
        return Some(drop_tail(path));
    }
    if is_absolute(dir) != is_absolute(path) {
        return None;
    }
    let dir_chars = chars_of(dir);
    let path_chars = chars_of(path);
    if is_begun_here(dir_chars.as_slice()) != is_begun_here(path_chars.as_slice()) {
        return None;
    }
    strip_parts(dir, path)
}

/// The parts of a path that name something.
pub open spec fn real_parts(parts: Seq<Seq<char>>) -> Seq<Seq<char>> {
    parts.filter(|p: Seq<char>| is_real(p))
}

/// Two paths that begin at the root lead to the same place by their parts.
pub open spec fn same_place(a: Seq<char>, b: Seq<char>) -> bool {
    real_parts(split_on(a, '/')) == real_parts(split_on(b, '/'))
}

/// The parts of a path that name something.
pub fn named_parts(path: &str) -> (r: Vec<String>)
    ensures
        texts(r@) == real_parts(split_on(path@, '/')),
{
    let v = chars_of(path);
    let parts = split(v.as_slice(), '/');
    let ghost all = texts(parts@);
    let ghost keep = |p: Seq<char>| is_real(p);
    let mut out: Vec<String> = Vec::new();
    let mut i: usize = 0;
    proof {
        reveal(Seq::filter);
        assert(all.take(0) =~= Seq::<Seq<char>>::empty());
        assert(texts(out@) =~= Seq::<Seq<char>>::empty());
    }
    while i < parts.len()
        invariant
            i <= parts@.len(),
            all == texts(parts@),
            keep == (|p: Seq<char>| is_real(p)),
            texts(out@) == all.take(i as int).filter(keep),
        decreases parts.len() - i,
    {
        proof {
            reveal(Seq::filter);
            assert(all.take(i + 1).drop_last() =~= all.take(i as int));
            assert(all.take(i + 1).last() == parts@[i as int]@);
        }
        if names_something(parts[i].as_str()) {
            push_text(&mut out, parts[i].clone());
        }
        i += 1;
    }
    assert(all.take(i as int) =~= all);
    out
}

/// Whether two paths that begin at the root have the same parts.
pub fn is_same_place(a: &str, b: &str) -> (r: bool)
    ensures
        r == same_place(a@, b@),
{
    let x = named_parts(a);
    let y = named_parts(b);
    let ghost xs = texts(x@);
    let ghost ys = texts(y@);
    if x.len() != y.len() {
        assert(xs.len() != ys.len());
        return false;
    }
    let mut i: usize = 0;
    while i < x.len()
        invariant
            i <= x@.len(),
            x@.len() == y@.len(),
            xs == texts(x@),
            ys == texts(y@),
            xs == real_parts(split_on(a@, '/')),
            ys == real_parts(split_on(b@, '/')),
            forall|k: int| 0 <= k < i ==> xs[k] == ys[k],
        decreases x.len() - i,
    {
        assert(xs[i as int] == x@[i as int]@);
        assert(ys[i as int] == y@[i as int]@);
        if !same_text(x[i].as_str(), y[i].as_str()) {
            return false;
        }
        i += 1;
    }
    assert(xs =~= ys);
    true
}

/// The path with every backslash turned into a forward slash.
pub fn normalize_path(path: &str) -> (r: String)
    ensures
        r@ == replaced_char(path@, '\\', '/'),
{
    replace_char(path, '\\', '/')
}

/// The last part of a path that names something, unless it leads upward.
pub open spec fn file_name_of(path: Seq<char>) -> Option<Seq<char>> {
    let named = real_parts(split_on(path, '/'));
    if named.len() == 0 || named.last() == ".."@ {
        None
    } else {
        Some(named.last())
    }
}

/// The name of the file that a path leads to.
pub fn file_name(path: &str) -> (r: Option<String>)
    ensures
        match r {
            Some(name) => file_name_of(path@) == Some(name@),
            None => file_name_of(path@) is None,
        },
{
    let parts = named_parts(path);
    let ghost all = texts(parts@);
    if parts.len() == 0 {
        assert(all.len() == 0);
        return None;
    }
    assert(all.last() == parts@[parts@.len() - 1]@);
    if same_text(parts[parts.len() - 1].as_str(), "..") {
        return None;
    }
    Some(parts[parts.len() - 1].clone())
}

// ---------------------------------------------------------------------------
// What holds of paths
// ---------------------------------------------------------------------------

/// A path that begins at the root stays as it is wherever it is taken from; another one
/// stands behind the directory, with one slash between.
pub proof fn law_path_in(dir: Seq<char>, path: Seq<char>)
    ensures
        path.len() > 0 && path[0] == '/' ==> path_in(dir, path) == path,
        dir.len() > 0 && dir.last() != '/' && !(path.len() > 0 && path[0] == '/') ==> path_in(
            dir,
            path,
        ) == dir + seq!['/'] + path,
        dir.len() > 0 && dir.last() == '/' && !(path.len() > 0 && path[0] == '/') ==> path_in(
            dir,
            path,
        ) == dir + path,
        path_in(Seq::empty(), path) == path,
{
    assert(dir.push('/') + path =~= dir + seq!['/'] + path);
}

proof fn lemma_real_front(parts: Seq<Seq<char>>)
    requires
        parts.len() > 0,
    ensures
        real_parts(parts) == (if is_real(parts[0]) {
            seq![parts[0]]
        } else {
            Seq::empty()
        }) + real_parts(parts.drop_first()),
{
    let p = |x: Seq<char>| is_real(x);
    let head = seq![parts[0]];
    assert(parts =~= head + parts.drop_first());
    Seq::filter_distributes_over_add(head, parts.drop_first(), p);
    reveal(Seq::filter);
    assert(head.drop_last() =~= Seq::<Seq<char>>::empty());
    assert(head.drop_last().filter(p) =~= Seq::<Seq<char>>::empty());
    assert(head.filter(p) =~= (if is_real(parts[0]) {
        head
    } else {
        Seq::empty()
    }));
}

proof fn lemma_real_back(parts: Seq<Seq<char>>)
    requires
        parts.len() > 0,
    ensures
        real_parts(parts) == real_parts(parts.drop_last()) + (if is_real(parts.last()) {
            seq![parts.last()]
        } else {
            Seq::empty()
        }),
{
    let p = |x: Seq<char>| is_real(x);
    reveal(Seq::filter);
    assert(real_parts(parts) =~= real_parts(parts.drop_last()) + (if is_real(parts.last()) {
        seq![parts.last()]
    } else {
        Seq::empty()
    }));
}

proof fn lemma_trimmed_parts(parts: Seq<Seq<char>>)
    ensures
        real_parts(trimmed_parts(parts)) == real_parts(parts),
        trimmed_parts(parts).len() > 0 ==> is_real(trimmed_parts(parts)[0]) && is_real(
            trimmed_parts(parts).last(),
        ),
    decreases parts.len(),
{
    if parts.len() > 0 {
        if !is_real(parts[0]) {
            lemma_trimmed_parts(parts.drop_first());
            lemma_real_front(parts);
            assert(Seq::<Seq<char>>::empty() + real_parts(parts.drop_first()) =~= real_parts(
                parts.drop_first(),
            ));
        } else if !is_real(parts.last()) {
            lemma_trimmed_parts(parts.drop_last());
            lemma_real_back(parts);
            assert(real_parts(parts.drop_last()) + Seq::<Seq<char>>::empty() =~= real_parts(
                parts.drop_last(),
            ));
        }
    }
}

/// A path is below a directory exactly where the parts that name something begin with those of
/// the directory, and what is left of it are the others.
pub proof fn law_parts_below(dir: Seq<Seq<char>>, path: Seq<Seq<char>>)
    ensures
        parts_below(dir, path) matches Some(rest) ==> real_parts(path) == real_parts(dir)
            + real_parts(rest),
        parts_below(dir, path) is Some <==> real_parts(dir).is_prefix_of(real_parts(path)),
    decreases dir.len(), path.len(),
{
    let d = real_parts(dir);
    let p = real_parts(path);
    let none = Seq::<Seq<char>>::empty();
    reveal(Seq::filter);
    if dir.len() > 0 && !is_real(dir[0]) {
        law_parts_below(dir.drop_first(), path);
        lemma_real_front(dir);
        assert(none + real_parts(dir.drop_first()) =~= real_parts(dir.drop_first()));
    } else if dir.len() == 0 {
        lemma_trimmed_parts(path);
        assert(d =~= none);
        assert(none + p =~= p);
        assert(p.subrange(0, 0) =~= none);
    } else if path.len() == 0 {
        lemma_real_front(dir);
        assert(p =~= none);
        assert(d.len() > 0);
    } else if !is_real(path[0]) {
        law_parts_below(dir, path.drop_first());
        lemma_real_front(path);
        assert(none + real_parts(path.drop_first()) =~= real_parts(path.drop_first()));
    } else {
        lemma_real_front(dir);
        lemma_real_front(path);
        let dr = real_parts(dir.drop_first());
        let pr = real_parts(path.drop_first());
        assert(d == seq![dir[0]] + dr);
        assert(p == seq![path[0]] + pr);
        if dir[0] == path[0] {
            law_parts_below(dir.drop_first(), path.drop_first());
            if let Some(rest) = parts_below(dir, path) {
                assert(p =~= d + real_parts(rest));
            }
            if dr.is_prefix_of(pr) {
                assert(d =~= p.subrange(0, d.len() as int)) by {
                    assert(dr =~= pr.subrange(0, dr.len() as int));
                    assert forall|i: int| 0 <= i < d.len() implies d[i] == p[i] by {
                        if i > 0 {
                            assert(dr[i - 1] == pr.subrange(0, dr.len() as int)[i - 1]);
                        }
                    }
                }
            }
            if d.is_prefix_of(p) {
                assert(dr =~= pr.subrange(0, dr.len() as int)) by {
                    assert(d =~= p.subrange(0, d.len() as int));
                    assert forall|i: int| 0 <= i < dr.len() implies dr[i] == pr[i] by {
                        assert(d[i + 1] == p.subrange(0, d.len() as int)[i + 1]);
                    }
                }
            }
        } else if d.is_prefix_of(p) {
            assert(d[0] == p.subrange(0, d.len() as int)[0]);
        }
    }
}

proof fn lemma_split_both(a: Seq<char>, c: char, b: Seq<char>)
    ensures
        split_on(a + seq![c] + b, c) == split_on(a, c) + split_on(b, c),
    decreases a.len(),
{
    crate::pieces::lemma_position_of(a, c);
    let p = crate::pieces::position_of(a, c);
    if p >= a.len() {
        assert(!a.contains(c));
        crate::pieces::lemma_split_first(a, c, b);
        assert(split_on(a, c) =~= seq![a]);
    } else {
        let x = a.take(p);
        let rest = a.skip(p + 1);
        assert(a =~= x + seq![c] + rest);
        assert(!x.contains(c)) by {
            assert forall|i: int| 0 <= i < x.len() implies x[i] != c by {
                assert(x[i] == a[i]);
            }
        }
        lemma_split_both(rest, c, b);
        crate::pieces::lemma_split_first(x, c, rest);
        assert(a + seq![c] + b =~= x + seq![c] + (rest + seq![c] + b));
        crate::pieces::lemma_split_first(x, c, rest + seq![c] + b);
        assert(seq![x] + (split_on(rest, c) + split_on(b, c)) =~= (seq![x] + split_on(rest, c))
            + split_on(b, c));
    }
}

proof fn lemma_skip_unreal(dir: Seq<Seq<char>>, u: Seq<char>, path: Seq<Seq<char>>)
    requires
        !is_real(u),
    ensures
        parts_below(dir, seq![u] + path) == parts_below(dir, path),
    decreases dir.len(),
{
    let all = seq![u] + path;
    assert(all.drop_first() =~= path);
    if dir.len() > 0 && !is_real(dir[0]) {
        lemma_skip_unreal(dir.drop_first(), u, path);
    }
}

proof fn lemma_below_itself(dir: Seq<Seq<char>>, rest: Seq<Seq<char>>)
    ensures
        parts_below(dir, dir + rest) == Some(trimmed_parts(rest)),
    decreases dir.len(),
{
    if dir.len() == 0 {
        assert(dir + rest =~= rest);
    } else {
        let tail = dir.drop_first();
        assert((dir + rest).drop_first() =~= tail + rest);
        lemma_below_itself(tail, rest);
        if !is_real(dir[0]) {
            assert(dir + rest =~= seq![dir[0]] + (tail + rest));
            lemma_skip_unreal(tail, dir[0], tail + rest);
        }
    }
}

/// A path taken from inside a directory that begins at the root is below it, and below it
/// is the same path again, where that begins and ends with a part that names something.
pub proof fn law_below_again(dir: Seq<char>, path: Seq<char>)
    requires
        is_rooted(dir),
        dir.last() != '/',
        is_real(split_on(path, '/')[0]),
        is_real(split_on(path, '/').last()),
    ensures
        below(dir, path_in(dir, path)) == Some(path),
        below(dir, dir) == Some(Seq::<char>::empty()),
{
    let parts = split_on(path, '/');
    crate::pieces::law_split_joined(path, '/');
    assert(parts.len() > 0);
    assert(!is_rooted(path)) by {
        if is_rooted(path) {
            crate::pieces::lemma_position_of(path, '/');
            assert(crate::pieces::position_of(path, '/') == 0);
            assert(parts[0] =~= Seq::<char>::empty());
        }
    }
    law_path_in(dir, path);
    lemma_split_both(dir, '/', path);
    lemma_below_itself(split_on(dir, '/'), parts);
    assert(trimmed_parts(parts) == parts);
    reveal_strlit("/");
    assert("/"@ =~= seq!['/']);
    let none = Seq::<Seq<char>>::empty();
    lemma_below_itself(split_on(dir, '/'), none);
    assert(split_on(dir, '/') + none =~= split_on(dir, '/'));
    assert(joined(none, "/"@) =~= Seq::<char>::empty());
}

/// The name of a file is the last part of its path that names something: behind the last
/// slash, where something stands there.
pub proof fn law_file_name(dir: Seq<char>, name: Seq<char>)
    requires
        is_real(name),
        !name.contains('/'),
    ensures
        name != ".."@ ==> file_name_of(dir + seq!['/'] + name) == Some(name),
        name == ".."@ ==> file_name_of(dir + seq!['/'] + name) is None,
{
    lemma_split_both(dir, '/', name);
    crate::pieces::lemma_position_of(name, '/');
    let q = crate::pieces::position_of(name, '/');
    if q < name.len() {
        assert(name.contains(name[q]));
    }
    assert(split_on(name, '/') =~= seq![name]);
    let all = split_on(dir, '/') + seq![name];
    assert(all.last() == name);
    lemma_real_back(all);
    assert(real_parts(all).last() == name);
}

/// Two paths lead to the same place exactly where the same parts name something in them;
/// slashes more and single dots make no difference.
pub proof fn law_same_place(a: Seq<char>, b: Seq<char>)
    ensures
        same_place(a, a),
        same_place(a, b) == same_place(b, a),
        same_place(a.push('/'), a),
        same_place(a.push('/').push('.'), a),
{
    let none = Seq::<char>::empty();
    let s = split_on(a, '/');
    assert(a.push('/') =~= a + seq!['/'] + none);
    lemma_split_both(a, '/', none);
    crate::pieces::lemma_position_of(none, '/');
    assert(split_on(none, '/') =~= seq![none]);
    let one = s + seq![none];
    lemma_real_back(one);
    assert(one.drop_last() =~= s);
    assert(real_parts(s) + Seq::<Seq<char>>::empty() =~= real_parts(s));
    let dot = seq!['.'];
    assert(a.push('/').push('.') =~= a + seq!['/'] + dot);
    lemma_split_both(a, '/', dot);
    crate::pieces::lemma_position_of(dot, '/');
    assert(split_on(dot, '/') =~= seq![dot]) by {
        let q = crate::pieces::position_of(dot, '/');
        if q < dot.len() {
            assert(dot[q] == '/');
        }
    }
    let two = s + seq![dot];
    lemma_real_back(two);
    assert(two.drop_last() =~= s);
}

/// A path begins with a single dot where that dot is a part of its own, and not where a name
/// or two dots follow.
pub proof fn law_begins_here(rest: Seq<char>)
    ensures
        begins_here(seq!['.', '/'] + rest),
        begins_here(seq!['.']),
        !begins_here(Seq::<char>::empty()),
        rest.len() > 0 && rest[0] != '/' ==> !begins_here(seq!['.'] + rest),
        rest.len() > 0 && rest[0] != '.' ==> !begins_here(rest),
{
}

} // verus!
