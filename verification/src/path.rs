//! Unix paths as text.
//!
//! A path is a run of components separated by `/`. Empty components and `.` components (but a
//! leading one) do not count, so `a//b/.` has the components `a` and `b`.

use crate::text;
use vstd::prelude::*;

verus! {

/// `rel` below `base`: an absolute `rel` stands for itself, and otherwise a separator is put
/// between the two unless `base` is empty or ends in one.
pub open spec fn joined(base: Seq<char>, rel: Seq<char>) -> Seq<char> {
    if rel.len() > 0 && rel[0] == '/' {
        rel
    } else if base.len() == 0 || base.last() == '/' {
        base + rel
    } else {
        base.push('/') + rel
    }
}

/// The number of characters before the components proper: one for the root `/` or for a leading
/// `.` component, else none.
pub open spec fn body_start(p: Seq<char>) -> int {
    if p.len() > 0 && p[0] == '/' {
        1
    } else if p.len() > 0 && p[0] == '.' && (p.len() == 1 || p[1] == '/') {
        1
    } else {
        0
    }
}

/// The position after the last `/` of `p` at or behind `start`; `start` when there is none.
pub open spec fn component_start(p: Seq<char>, start: int) -> int
    decreases p.len(),
{
    if p.len() == 0 || p.len() <= start {
        start
    } else if p.last() == '/' {
        p.len() as int
    } else {
        component_start(p.drop_last(), start)
    }
}

/// What follows the last separator of `p`.
pub open spec fn last_component(p: Seq<char>) -> Seq<char> {
    p.skip(component_start(p, body_start(p)))
}

/// `p` without its last component and the separator before it.
pub open spec fn without_last(p: Seq<char>) -> Seq<char> {
    let c = component_start(p, body_start(p));
    if c > body_start(p) {
        p.take(c - 1)
    } else {
        p.take(c)
    }
}

/// A component that does not count.
pub open spec fn is_void(c: Seq<char>) -> bool {
    c.len() == 0 || c == seq!['.']
}

pub proof fn lemma_component_start(p: Seq<char>, start: int)
    requires
        0 <= start <= p.len(),
    ensures
        start <= component_start(p, start) <= p.len(),
        component_start(p, start) > start ==> p[component_start(p, start) - 1] == '/',
        forall|k: int| component_start(p, start) <= k < p.len() ==> p[k] != '/',
    decreases p.len(),
{
    if p.len() > start && p.last() != '/' {
        lemma_component_start(p.drop_last(), start);
        let c = component_start(p.drop_last(), start);
        assert forall|k: int| c <= k < p.len() implies p[k] != '/' by {
            if k < p.len() - 1 {
                assert(p.drop_last()[k] == p[k]);
            }
        }
    }
}

/// `p` without the trailing components that do not count.
pub open spec fn stripped(p: Seq<char>) -> Seq<char>
    decreases p.len(),
{
    if p.len() > body_start(p) && is_void(last_component(p)) {
        proof {
            lemma_component_start(p, body_start(p));
        }
        stripped(without_last(p))
    } else {
        p
    }
}

/// The path without its final component; absent for the root and for the empty path.
pub open spec fn parent_of(p: Seq<char>) -> Option<Seq<char>> {
    let t = stripped(p);
    if t.len() > body_start(t) {
        Some(stripped(without_last(t)))
    } else if t == seq!['.'] {
        Some(seq![])
    } else {
        None
    }
}

/// The final component; absent when the path has none or ends in `..`.
pub open spec fn file_name_of(p: Seq<char>) -> Option<Seq<char>> {
    let t = stripped(p);
    if t.len() > body_start(t) && last_component(t) != seq!['.', '.'] {
        Some(last_component(t))
    } else {
        None
    }
}

/// The position of the last `c` in `s`; -1 when there is none.
pub open spec fn last_position_of(s: Seq<char>, c: char) -> int
    decreases s.len(),
{
    if s.len() == 0 {
        -1
    } else if s.last() == c {
        s.len() - 1
    } else {
        last_position_of(s.drop_last(), c)
    }
}

/// A file name without its extension: what stands before the last `.`, and the whole name when it
/// has no `.` or begins with its only one.
pub open spec fn stem_of_name(name: Seq<char>) -> Seq<char> {
    if last_position_of(name, '.') > 0 {
        name.take(last_position_of(name, '.'))
    } else {
        name
    }
}

/// The final component without its extension.
pub open spec fn file_stem_of(p: Seq<char>) -> Option<Seq<char>> {
    match file_name_of(p) {
        Some(name) => Some(stem_of_name(name)),
        None => None,
    }
}

/// `rel` below `base`.
pub fn join(base: &str, rel: &str) -> (r: String)
    ensures
        r@ == joined(base@, rel@),
{
    let absolute = rel.unicode_len() > 0 && rel.get_char(0) == '/';
    if absolute {
        return rel.to_owned();
    }
    let n: usize = base.unicode_len();
    let mut r = base.to_owned();
    if n > 0 && base.get_char(n - 1) != '/' {
        proof {
            reveal_strlit("/");
        }
        r.append("/");
        assert(r@ =~= base@.push('/'));
    }
    r.append(rel);
    r
}

/// The number of characters before the components proper.
fn start_of(p: &Vec<char>, len: usize) -> (r: usize)
    requires
        len <= p@.len(),
    ensures
        r == body_start(p@.take(len as int)),
        r <= len,
{
    if len > 0 && p[0] == '/' {
        1
    } else if len > 0 && p[0] == '.' && (len == 1 || p[1] == '/') {
        1
    } else {
        0
    }
}

/// The position after the last separator among the first `len` characters, not before `start`.
fn last_start(p: &Vec<char>, len: usize, start: usize) -> (r: usize)
    requires
        start <= len <= p@.len(),
    ensures
        r == component_start(p@.take(len as int), start as int),
        start <= r <= len,
{
    let mut i: usize = len;
    while i > start && p[i - 1] != '/'
        invariant
            start <= i <= len <= p@.len(),
            component_start(p@.take(len as int), start as int) == component_start(
                p@.take(i as int),
                start as int,
            ),
        decreases i,
    {
        assert(p@.take(i as int).drop_last() =~= p@.take(i - 1));
        i -= 1;
    }
    i
}

/// The length that is left when the last component of the first `len` characters is taken off.
fn cut_last(p: &Vec<char>, len: usize) -> (r: usize)
    requires
        len <= p@.len(),
        len > body_start(p@.take(len as int)),
    ensures
        r < len,
        p@.take(r as int) == without_last(p@.take(len as int)),
{
    let b: usize = start_of(p, len);
    let c: usize = last_start(p, len, b);
    let r: usize = if c > b {
        c - 1
    } else {
        c
    };
    assert(p@.take(len as int).take(r as int) =~= p@.take(r as int));
    r
}

/// The length that is left when the trailing components that do not count are taken off.
fn stripped_len(p: &Vec<char>, len: usize) -> (r: usize)
    requires
        len <= p@.len(),
    ensures
        r <= len,
        p@.take(r as int) == stripped(p@.take(len as int)),
{
    let mut n: usize = len;
    loop
        invariant
            n <= len <= p@.len(),
            stripped(p@.take(len as int)) == stripped(p@.take(n as int)),
        ensures
            n <= len,
            p@.take(n as int) == stripped(p@.take(len as int)),
        decreases n,
    {
        let b: usize = start_of(p, n);
        if n <= b {
            break;
        }
        let c: usize = last_start(p, n, b);
        proof {
            let t = p@.take(n as int);
            assert(last_component(t) =~= p@.subrange(c as int, n as int));
            assert(is_void(last_component(t)) == (c == n || (c + 1 == n && p@[c as int] == '.')))
            by {
                if c + 1 == n {
                    assert(last_component(t)[0] == p@[c as int]);
                    if p@[c as int] == '.' {
                        assert(last_component(t) =~= seq!['.']);
                    }
                }
            }
        }
        if c == n || (c + 1 == n && p[c] == '.') {
            n = cut_last(p, n);
        } else {
            break;
        }
    }
    n
}

/// The path without its final component.
pub fn parent(p: &str) -> (r: Option<String>)
    ensures
        r.deep_view() == parent_of(p@),
{
    let c = chars_of_path(p);
    let n: usize = stripped_len(&c, c.len());
    let b: usize = start_of(&c, n);
    let ghost t = stripped(p@);
    if n > b {
        let m: usize = cut_last(&c, n);
        let k: usize = stripped_len(&c, m);
        assert(p@.subrange(0, k as int) =~= p@.take(k as int));
        Some(text::part_of(p, 0, k))
    } else if n == 1 && c[0] == '.' {
        assert(t =~= seq!['.']);
        let r = String::new();
        assert(r@ =~= seq![]);
        Some(r)
    } else {
        proof {
            if t == seq!['.'] {
                assert(t.len() == 1 && t[0] == '.');
            }
        }
        None
    }
}

fn chars_of_path(p: &str) -> (r: Vec<char>)
    ensures
        r@ == p@,
        p@.take(p@.len() as int) == p@,
{
    assert(p@.take(p@.len() as int) =~= p@);
    text::chars_of(p)
}

/// The final component.
pub fn file_name(p: &str) -> (r: Option<String>)
    ensures
        r.deep_view() == file_name_of(p@),
{
    let c = chars_of_path(p);
    let n: usize = stripped_len(&c, c.len());
    let b: usize = start_of(&c, n);
    if n <= b {
        return None;
    }
    let s: usize = last_start(&c, n, b);
    let ghost t = stripped(p@);
    assert(last_component(t) =~= p@.subrange(s as int, n as int));
    if n - s == 2 && c[s] == '.' && c[s + 1] == '.' {
        assert(last_component(t) =~= seq!['.', '.']);
        None
    } else {
        proof {
            if last_component(t) == seq!['.', '.'] {
                assert(last_component(t).len() == 2);
                assert(last_component(t)[0] == '.' && last_component(t)[1] == '.');
            }
        }
        Some(text::part_of(p, s, n))
    }
}

/// The final component without its extension.
pub fn file_stem(p: &str) -> (r: Option<String>)
    ensures
        r.deep_view() == file_stem_of(p@),
{
    match file_name(p) {
        None => None,
        Some(name) => {
            let c = chars_of_path(name.as_str());
            let mut i: usize = c.len();
            while i > 0 && c[i - 1] != '.'
                invariant
                    i <= c@.len(),
                    last_position_of(c@, '.') == last_position_of(c@.take(i as int), '.'),
                decreases i,
            {
                assert(c@.take(i as int).drop_last() =~= c@.take(i - 1));
                i -= 1;
            }
            if i > 1 {
                assert(name@.subrange(0, i - 1) =~= name@.take(i - 1));
                Some(text::part_of(name.as_str(), 0, i - 1))
            } else {
                Some(name)
            }
        },
    }
}

} // verus!
