//! The final component of an object path, and where downloads are written.

use vstd::prelude::*;
use vstd::string::*;
use crate::text::chars_of;

verus! {

broadcast use vstd::string::group_string_axioms;

/// `p` without the trailing separators and trailing `.` components that a path
/// parser passes over when it looks for the last component.
pub open spec fn trim_path_end(p: Seq<char>) -> Seq<char>
    decreases p.len(),
{
    if p.len() == 0 {
        p
    } else if p.last() == '/' {
        trim_path_end(p.drop_last())
    } else if p == seq!['.'] {
        Seq::empty()
    } else if p.len() >= 2 && p.last() == '.' && p[p.len() - 2] == '/' {
        trim_path_end(p.drop_last())
    } else {
        p
    }
}

/// The part of `q` after its last `/` (all of `q` when it has none).
pub open spec fn after_last_slash(q: Seq<char>) -> Seq<char>
    decreases q.len(),
{
    if q.len() == 0 {
        q
    } else if q.last() == '/' {
        Seq::empty()
    } else {
        after_last_slash(q.drop_last()).push(q.last())
    }
}

/// The final component of the path `p` (`Path::file_name` on Unix): the last
/// component, when it is a normal one; none when the path is empty, is the root, or
/// ends in `..`.
pub open spec fn file_name_of(p: Seq<char>) -> Option<Seq<char>> {
    let n = after_last_slash(trim_path_end(p));
    if n.len() == 0 || n == seq!['.', '.'] {
        None
    } else {
        Some(n)
    }
}

/// The final component of `path`, if it has one.
pub fn file_name(path: &str) -> (r: Option<String>)
    ensures
        match file_name_of(path@) {
            Some(n) => r matches Some(s) && s@ == n,
            None => r is None,
        },
{
    let cs = chars_of(path);
    let mut end: usize = cs.len();
    assert(cs@.take(end as int) == cs@);
    while end > 0
        invariant
            end <= cs@.len(),
            trim_path_end(cs@) == trim_path_end(cs@.take(end as int)),
        ensures
            end <= cs@.len(),
            trim_path_end(cs@) == cs@.take(end as int),
        decreases end,
    {
        let ghost q = cs@.take(end as int);
        assert(q.drop_last() == cs@.take(end - 1));
        if cs[end - 1] == '/' {
            end = end - 1;
        } else if end == 1 && cs[0] == '.' {
            assert(q == seq!['.']);
            end = 0;
            assert(cs@.take(0) == Seq::<char>::empty());
        } else if end >= 2 && cs[end - 1] == '.' && cs[end - 2] == '/' {
            end = end - 1;
        } else {
            assert(trim_path_end(q) == q);
            break;
        }
    }
    let ghost q = cs@.take(end as int);
    let mut start: usize = end;
    while start > 0 && cs[start - 1] != '/'
        invariant
            start <= end <= cs@.len(),
            q == cs@.take(end as int),
            after_last_slash(q) == after_last_slash(cs@.take(start as int)) + cs@.subrange(
                start as int,
                end as int,
            ),
        decreases start,
    {
        let ghost p = cs@.take(start as int);
        assert(p.drop_last() == cs@.take(start - 1));
        assert(cs@.subrange(start - 1, end as int) == seq![cs@[start - 1]] + cs@.subrange(
            start as int,
            end as int,
        ));
        assert(after_last_slash(p) == after_last_slash(cs@.take(start - 1)).push(cs@[start - 1]));
        start = start - 1;
    }
    proof {
        let p = cs@.take(start as int);
        if start > 0 {
            assert(p.last() == '/');
        }
        assert(after_last_slash(p) == Seq::<char>::empty());
        assert(after_last_slash(q) =~= cs@.subrange(start as int, end as int));
    }
    if start == end {
        return None;
    }
    if end - start == 2 && cs[start] == '.' && cs[start + 1] == '.' {
        assert(cs@.subrange(start as int, end as int) =~= seq!['.', '.']);
        return None;
    }
    assert(cs@.subrange(start as int, end as int) != seq!['.', '.']) by {
        if cs@.subrange(start as int, end as int) == seq!['.', '.'] {
            assert(cs@.subrange(start as int, end as int)[0] == cs@[start as int]);
            assert(cs@.subrange(start as int, end as int)[1] == cs@[start + 1]);
        }
    }
    let name = path.substring_char(start, end);
    Some(name.to_owned())
}

/// The file name at the end of `path`; the path must have one.
pub fn f_name(path: String) -> (name: String)
    requires
        file_name_of(path@) is Some,
    ensures
        file_name_of(path@) == Some(name@),
{
    match file_name(path.as_str()) {
        Some(n) => n,
        None => String::new(),
    }
}

/// Where a download of the object `src` is written: `dec` when given, else a file
/// named after the object's final path component.
pub fn target_path(src: String, dec: Option<String>) -> (p: String)
    requires
        dec is Some || file_name_of(src@) is Some,
    ensures
        match dec {
            Some(d) => p@ == d@,
            None => file_name_of(src@) == Some(p@),
        },
{
    match dec {
        Some(p) => p,
        None => f_name(src),
    }
}

/// What is after the last `/` holds no `/` and ends as `q` ends.
proof fn lemma_after_last_slash(q: Seq<char>)
    ensures
        forall|i: int| 0 <= i < after_last_slash(q).len() ==> after_last_slash(q)[i] != '/',
        after_last_slash(q).len() <= q.len(),
        after_last_slash(q).len() > 0 ==> after_last_slash(q).last() == q.last(),
        after_last_slash(q).len() > 1 ==> after_last_slash(q)[after_last_slash(q).len() - 2]
            == q[q.len() - 2],
        after_last_slash(q).len() == 1 && q.len() > 1 ==> q[q.len() - 2] == '/',
        (forall|i: int| 0 <= i < q.len() ==> q[i] != '/') ==> after_last_slash(q) == q,
    decreases q.len(),
{
    if q.len() > 0 {
        lemma_after_last_slash(q.drop_last());
        if q.last() != '/' && q.len() > 1 && q.drop_last().last() != '/' {
            lemma_after_last_slash(q.drop_last().drop_last());
        }
        if forall|i: int| 0 <= i < q.len() ==> q[i] != '/' {
            assert(q.last() != '/');
            assert(forall|i: int| 0 <= i < q.drop_last().len() ==> q.drop_last()[i] == q[i]);
            assert(q.drop_last().push(q.last()) == q);
        }
    }
}

/// A trimmed path ends neither in `/` nor in a `.` component.
proof fn lemma_trim_path_end(p: Seq<char>)
    ensures
        trim_path_end(p).len() > 0 ==> trim_path_end(p).last() != '/',
        trim_path_end(p) != seq!['.'],
        trim_path_end(p).len() >= 2 && trim_path_end(p).last() == '.' ==> trim_path_end(p)[trim_path_end(p).len() - 2] != '/',
    decreases p.len(),
{
    if p.len() > 0 {
        lemma_trim_path_end(p.drop_last());
    }
}

/// What is after the last `/` of `q` ends `q`, right after a `/` or at its start.
proof fn lemma_after_last_slash_suffix(q: Seq<char>)
    ensures
        after_last_slash(q).len() <= q.len(),
        q.subrange(q.len() - after_last_slash(q).len(), q.len() as int) == after_last_slash(q),
        after_last_slash(q).len() < q.len() ==> q[q.len() - after_last_slash(q).len() - 1] == '/',
    decreases q.len(),
{
    if q.len() > 0 {
        lemma_after_last_slash_suffix(q.drop_last());
        if q.last() != '/' {
            let a = after_last_slash(q.drop_last());
            assert(q.subrange(q.len() - a.len() - 1, q.len() as int) =~= a.push(q.last())) by {
                assert(q.drop_last().subrange(q.len() - 1 - a.len(), q.len() - 1) == a);
            }
            if a.len() + 1 < q.len() {
                assert(q[q.len() - a.len() - 2] == q.drop_last()[q.drop_last().len() - a.len() - 1]);
            }
        } else {
            assert(q.subrange(q.len() as int, q.len() as int) =~= Seq::<char>::empty());
        }
    } else {
        assert(q.subrange(0, 0) =~= Seq::<char>::empty());
    }
}

/// A `/`-free tail after a `/` (or alone) is what comes after the last `/`.
proof fn lemma_after_last_slash_of_split(pre: Seq<char>, n: Seq<char>)
    requires
        forall|i: int| 0 <= i < n.len() ==> n[i] != '/',
        pre.len() == 0 || pre.last() == '/',
    ensures
        after_last_slash(pre + n) == n,
    decreases n.len(),
{
    if n.len() == 0 {
        assert(pre + n =~= pre);
        if pre.len() > 0 {
            assert(after_last_slash(pre) == Seq::<char>::empty());
        }
    } else {
        let m = n.drop_last();
        lemma_after_last_slash_of_split(pre, m);
        assert((pre + n).drop_last() =~= pre + m);
        assert((pre + n).last() == n.last());
        assert(m.push(n.last()) =~= n);
    }
}

/// `trim_path_end(p)` is `p` without a tail made only of `/` and `.`.
proof fn lemma_trim_path_end_prefix(p: Seq<char>)
    ensures
        trim_path_end(p).len() <= p.len(),
        p.subrange(0, trim_path_end(p).len() as int) == trim_path_end(p),
        forall|i: int| trim_path_end(p).len() <= i < p.len() ==> p[i] == '/' || p[i] == '.',
    decreases p.len(),
{
    if p.len() > 0 {
        lemma_trim_path_end_prefix(p.drop_last());
        let q = trim_path_end(p);
        if p.last() == '/' || (p.len() >= 2 && p.last() == '.' && p[p.len() - 2] == '/') {
            assert(p.subrange(0, q.len() as int) =~= p.drop_last().subrange(0, q.len() as int));
            assert forall|i: int| q.len() <= i < p.len() implies p[i] == '/' || p[i] == '.' by {
                if i < p.len() - 1 {
                    assert(p[i] == p.drop_last()[i]);
                }
            }
        } else if p == seq!['.'] {
            assert(p.subrange(0, 0) =~= Seq::<char>::empty());
        } else {
            assert(p.subrange(0, p.len() as int) =~= p);
        }
    } else {
        assert(p.subrange(0, 0) =~= p);
    }
}

/// The file name is the whole last component of the path: `file_name_of(p)` is
/// `Some(n)` exactly when the path, without its trailing `/` and `.` components
/// (a tail made only of `/` and `.`), ends in `n` right after a `/` or is `n`, and
/// `n` is a non-empty `/`-free name other than `..`.
pub proof fn lemma_file_name_is_last_component(p: Seq<char>, n: Seq<char>)
    ensures
        p.subrange(0, trim_path_end(p).len() as int) == trim_path_end(p),
        forall|i: int| trim_path_end(p).len() <= i < p.len() ==> p[i] == '/' || p[i] == '.',
        file_name_of(p) == Some(n) <==> {
            &&& n.len() > 0
            &&& n != seq!['.', '.']
            &&& forall|i: int| 0 <= i < n.len() ==> n[i] != '/'
            &&& exists|pre: Seq<char>|
                trim_path_end(p) == pre + n && (pre.len() == 0 || pre.last() == '/')
        },
{
    lemma_trim_path_end_prefix(p);
    let q = trim_path_end(p);
    let a = after_last_slash(q);
    lemma_after_last_slash(q);
    lemma_after_last_slash_suffix(q);
    if file_name_of(p) == Some(n) {
        let pre = q.subrange(0, q.len() - a.len());
        assert(q =~= pre + a);
        if pre.len() > 0 {
            assert(pre.last() == q[q.len() - a.len() - 1]);
        }
    }
    if n.len() > 0 && n != seq!['.', '.'] && (forall|i: int| 0 <= i < n.len() ==> n[i] != '/')
        && exists|pre: Seq<char>| trim_path_end(p) == pre + n && (pre.len() == 0 || pre.last() == '/') {
        let pre = choose|pre: Seq<char>| trim_path_end(p) == pre + n && (pre.len() == 0 || pre.last() == '/');
        lemma_after_last_slash_of_split(pre, n);
    }
}

/// A file name is its own file name: it holds no `/`, and taking the final component
/// of it again gives it back.
pub proof fn lemma_file_name_idempotent(p: Seq<char>)
    requires
        file_name_of(p) is Some,
    ensures
        forall|i: int| 0 <= i < file_name_of(p)->0.len() ==> file_name_of(p)->0[i] != '/',
        file_name_of(file_name_of(p)->0) == file_name_of(p),
{
    let q = trim_path_end(p);
    let n = after_last_slash(q);
    lemma_after_last_slash(q);
    lemma_trim_path_end(p);
    lemma_after_last_slash(n);
    assert(n != seq!['.']) by {
        if n == seq!['.'] {
            assert(n.last() == '.');
            assert(q.last() == '.');
            if q.len() > 1 {
                assert(q[q.len() - 2] == '/');
            } else {
                assert(q =~= seq!['.']);
            }
        }
    }
    assert(n.last() != '/');
    assert(trim_path_end(n) == n) by {
        if n.len() >= 2 && n.last() == '.' {
            assert(n[n.len() - 2] != '/');
        }
    }
}

} // verus!
