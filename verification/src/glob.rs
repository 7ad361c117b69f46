//! Log files by pattern: `*` wildcards, the home directory, and the most recent match.

use crate::outside;
use crate::path;
use crate::text;
use vstd::prelude::*;

verus! {

/// The position behind the last of `parts` when each stands at its first occurrence behind the one
/// before it, beginning at `pos`.
pub open spec fn greedy_end(text: Seq<char>, parts: Seq<Seq<char>>, pos: int) -> Option<int>
    decreases parts.len(),
{
    if parts.len() == 0 {
        Some(pos)
    } else {
        match text::first_occurrence(text, parts[0], pos) {
            Some(j) => greedy_end(text, parts.drop_first(), j + parts[0].len()),
            None => None,
        }
    }
}

/// `text` is one that `pattern` stands for: every `*` stands for any characters, also for none, and
/// every other character for itself.
pub open spec fn wildcard(text: Seq<char>, pattern: Seq<char>) -> bool
    decreases pattern.len(), text.len(),
{
    if pattern.len() == 0 {
        text.len() == 0
    } else if pattern[0] == '*' {
        ||| wildcard(text, pattern.drop_first())
        ||| text.len() > 0 && wildcard(text.drop_first(), pattern)
    } else {
        &&& text.len() > 0
        &&& text[0] == pattern[0]
        &&& wildcard(text.drop_first(), pattern.drop_first())
    }
}

/// The characters of each piece.
spec fn piece_views(v: Seq<Vec<char>>) -> Seq<Seq<char>> {
    Seq::new(v.len(), |i: int| v[i]@)
}

/// The pieces of `pattern` between its stars.
fn pieces(pattern: &Vec<char>) -> (r: Vec<Vec<char>>)
    ensures
        piece_views(r@) == text::split_on(pattern@, '*'),
        r@.len() > 0,
{
    let mut r: Vec<Vec<char>> = Vec::new();
    let mut piece: Vec<char> = Vec::new();
    let mut start: usize = 0;
    let mut i: usize = 0;
    proof {
        assert(pattern@.skip(0) =~= pattern@);
        assert(piece@ =~= pattern@.subrange(0, 0));
        assert(piece_views(r@) + text::split_on(pattern@, '*') =~= text::split_on(pattern@, '*'));
    }
    while i < pattern.len()
        invariant
            start <= i <= pattern@.len(),
            piece@ == pattern@.subrange(start as int, i as int),
            forall|k: int| start <= k < i ==> pattern@[k] != '*',
            piece_views(r@) + text::split_on(pattern@.skip(start as int), '*') == text::split_on(
                pattern@,
                '*',
            ),
        decreases pattern@.len() - i,
    {
        if pattern[i] == '*' {
            let ghost before = piece_views(r@);
            let ghost rest = pattern@.skip(start as int);
            let ghost p = piece@;
            proof {
                text::lemma_position_of(rest, '*', 0);
                let at = text::position_of(rest, '*', 0);
                assert(rest[i - start] == '*');
                assert(at == i - start) by {
                    if at < i - start {
                        assert(rest[at] == pattern@[start + at]);
                    }
                }
                assert(rest.take(at) =~= p);
                assert(rest.skip(at + 1) =~= pattern@.skip(i + 1));
            }
            r.push(piece);
            proof {
                assert(piece_views(r@) =~= before.push(p));
                assert(piece_views(r@) + text::split_on(pattern@.skip(i + 1), '*') =~= before + (
                seq![p] + text::split_on(pattern@.skip(i + 1), '*')));
            }
            piece = Vec::new();
            start = i + 1;
            assert(piece@ =~= pattern@.subrange(i + 1, i + 1));
        } else {
            piece.push(pattern[i]);
            assert(piece@ =~= pattern@.subrange(start as int, i + 1));
        }
        i += 1;
    }
    let ghost before = piece_views(r@);
    proof {
        let rest = pattern@.skip(start as int);
        text::lemma_position_of(rest, '*', 0);
        let at = text::position_of(rest, '*', 0);
        if at < rest.len() {
            assert(rest[at] == pattern@[start + at]);
        }
        assert(rest =~= piece@);
    }
    let ghost p = piece@;
    r.push(piece);
    assert(piece_views(r@) =~= before + seq![p]);
    r
}

/// The pieces stand in `text` behind `pos`: each but the last at its first occurrence behind the one
/// before it, and the last one at the end of the text.
spec fn pieces_fit(text: Seq<char>, parts: Seq<Seq<char>>, pos: int) -> bool {
    let last = parts.last();
    &&& greedy_end(text, parts.drop_last(), pos) matches Some(e)
    &&& e <= text.len() - last.len()
    &&& text::occurs_at(text, last, text.len() - last.len())
}

/// Whether `text` matches `pattern`, in which `*` is the only wildcard.
pub fn matches_simple_glob(text: &str, pattern: &str) -> (r: bool)
    ensures
        r == wildcard(text@, pattern@),
{
    let t = text::chars_of(text);
    let p = text::chars_of(pattern);
    let parts = pieces(&p);
    let ghost views = piece_views(parts@);
    let len: usize = t.len();
    proof {
        lemma_pieces(text@, pattern@);
        assert(views[0] == parts@[0]@);
    }
    if parts.len() == 1 {
        return text::text_eq(text, pattern);
    }
    if parts[0].len() > len || !text::stands_at(&t, &parts[0], 0) {
        return false;
    }
    let last: usize = parts.len() - 1;
    let ghost middle = views.drop_first().drop_last();
    let ghost whole = greedy_end(t@, middle, views[0].len() as int);
    let mut pos: usize = parts[0].len();
    let mut i: usize = 1;
    assert(middle.skip(0) =~= middle);
    while i < last
        invariant
            views == piece_views(parts@),
            middle == views.drop_first().drop_last(),
            last == parts@.len() - 1,
            1 <= i <= last,
            t@.len() == len,
            pos <= len,
            wildcard(text@, pattern@) ==> whole is Some,
            greedy_end(t@, middle.skip(i - 1), pos as int) == whole,
        decreases last - i,
    {
        proof {
            assert(middle.skip(i - 1)[0] == parts@[i as int]@);
            assert(middle.skip(i - 1).drop_first() =~= middle.skip(i as int));
        }
        match text::find_chars(&t, &parts[i], pos) {
            Some(j) => {
                pos = j + parts[i].len();
            },
            None => {
                assert(whole is None);
                return false;
            },
        }
        i += 1;
    }
    proof {
        assert(middle.skip(i - 1) =~= seq![]);
        assert(views.drop_first().last() == parts@[last as int]@);
    }
    let n: usize = parts[last].len();
    n <= len && pos <= len - n && text::stands_at(&t, &parts[last], len - n)
}

/// `s` holds no `*`.
pub open spec fn starless(s: Seq<char>) -> bool {
    forall|k: int| 0 <= k < s.len() ==> s[k] != '*'
}

/// A piece without stars stands for itself at the start of the text.
proof fn lemma_wildcard_literal(text: Seq<char>, a: Seq<char>, rest: Seq<char>)
    requires
        starless(a),
    ensures
        wildcard(text, a + rest) == (text::begins_with(text, a) && wildcard(
            text.skip(a.len() as int),
            rest,
        )),
    decreases a.len(),
{
    if a.len() == 0 {
        assert(a + rest =~= rest);
        assert(text.skip(0) =~= text);
        assert(text.subrange(0, 0) =~= a);
    } else {
        let p = a + rest;
        assert(p[0] == a[0]);
        assert(p.drop_first() =~= a.drop_first() + rest);
        if text.len() > 0 {
            lemma_wildcard_literal(text.drop_first(), a.drop_first(), rest);
            if a.len() <= text.len() {
                assert(text.drop_first().skip(a.len() - 1) =~= text.skip(a.len() as int));
            }
            if text::begins_with(text, a) {
                assert(text.subrange(0, a.len() as int)[0] == a[0]);
                assert(text.drop_first().subrange(0, a.len() - 1) =~= text.subrange(
                    0,
                    a.len() as int,
                ).drop_first());
            }
            if text[0] == a[0] && text::begins_with(text.drop_first(), a.drop_first()) {
                assert forall|k: int| 0 <= k < a.len() implies text[k] == a[k] by {
                    if k > 0 {
                        assert(text.drop_first().subrange(0, a.len() - 1)[k - 1]
                            == a.drop_first()[k - 1]);
                    }
                }
                assert(text.subrange(0, a.len() as int) =~= a);
            }
        }
    }
}

/// A star stands for any characters at the start of the text.
proof fn lemma_wildcard_star(text: Seq<char>, rest: Seq<char>)
    ensures
        wildcard(text, seq!['*'] + rest) == (exists|k: int|
            0 <= k <= text.len() && wildcard(#[trigger] text.skip(k), rest)),
    decreases text.len(),
{
    let p = seq!['*'] + rest;
    assert(p.drop_first() =~= rest);
    assert(text.skip(0) =~= text);
    if text.len() > 0 {
        lemma_wildcard_star(text.drop_first(), rest);
        if wildcard(text.drop_first(), p) {
            let k = choose|k: int|
                0 <= k <= text.drop_first().len() && wildcard(
                    #[trigger] text.drop_first().skip(k),
                    rest,
                );
            assert(text.drop_first().skip(k) =~= text.skip(k + 1));
        }
        if exists|k: int| 0 <= k <= text.len() && wildcard(#[trigger] text.skip(k), rest) {
            let k = choose|k: int| 0 <= k <= text.len() && wildcard(#[trigger] text.skip(k), rest);
            if k > 0 {
                assert(text.drop_first().skip(k - 1) =~= text.skip(k));
            }
        }
    } else {
        if exists|k: int| 0 <= k <= text.len() && wildcard(#[trigger] text.skip(k), rest) {
            let k = choose|k: int| 0 <= k <= text.len() && wildcard(#[trigger] text.skip(k), rest);
            assert(k == 0);
        }
    }
}

/// How a pattern with a star is made of its first piece and what follows the first star.
proof fn lemma_split_first(q: Seq<char>)
    ensures
        ({
            let i = text::position_of(q, '*', 0);
            let parts = text::split_on(q, '*');
            &&& 0 <= i <= q.len()
            &&& starless(q.take(i))
            &&& parts.len() > 0
            &&& parts[0] == q.take(i)
            &&& i < q.len() ==> {
                &&& q == q.take(i) + (seq!['*'] + q.skip(i + 1))
                &&& parts.drop_first() == text::split_on(q.skip(i + 1), '*')
                &&& parts.drop_first().len() > 0
                &&& parts.last() == text::split_on(q.skip(i + 1), '*').last()
            }
            &&& i == q.len() ==> parts == seq![q] && q.take(i) == q
        }),
    decreases q.len(),
{
    text::lemma_position_of(q, '*', 0);
    let i = text::position_of(q, '*', 0);
    let parts = text::split_on(q, '*');
    if i < q.len() {
        let r = q.skip(i + 1);
        lemma_split_first(r);
        assert(q =~= q.take(i) + (seq!['*'] + r));
        assert(parts.drop_first() =~= text::split_on(r, '*'));
    } else {
        assert(q.take(i) =~= q);
    }
}

/// What `*q` stands for, behind position `pos` of `text`.
spec fn behind(text: Seq<char>, q: Seq<char>, pos: int) -> bool {
    exists|k: int| pos <= k <= text.len() && wildcard(#[trigger] text.skip(k), q)
}

/// One step of [`behind`]: the first piece stands somewhere behind `pos`, and the rest behind it.
proof fn lemma_behind_step(text: Seq<char>, q: Seq<char>, k: int)
    requires
        0 <= k <= text.len(),
        text::position_of(q, '*', 0) < q.len(),
    ensures
        ({
            let i = text::position_of(q, '*', 0);
            wildcard(text.skip(k), q) == (text::occurs_at(text, q.take(i), k) && behind(
                text,
                q.skip(i + 1),
                k + i,
            ))
        }),
{
    lemma_split_first(q);
    let i = text::position_of(q, '*', 0);
    let a = q.take(i);
    let r = q.skip(i + 1);
    let t = text.skip(k);
    lemma_wildcard_literal(t, a, seq!['*'] + r);
    assert(text::begins_with(t, a) == text::occurs_at(text, a, k)) by {
        if k + i <= text.len() {
            assert(t.subrange(0, i) =~= text.subrange(k, k + i));
        }
    }
    if text::begins_with(t, a) {
        let u = t.skip(i);
        assert(u =~= text.skip(k + i));
        lemma_wildcard_star(u, r);
        if wildcard(u, seq!['*'] + r) {
            let m = choose|m: int| 0 <= m <= u.len() && wildcard(#[trigger] u.skip(m), r);
            assert(u.skip(m) =~= text.skip(k + i + m));
        }
        if behind(text, r, k + i) {
            let m = choose|m: int| k + i <= m <= text.len() && wildcard(#[trigger] text.skip(m), r);
            assert(u.skip(m - k - i) =~= text.skip(m));
        }
    }
}

/// A pattern without stars stands for itself only.
proof fn lemma_wildcard_plain(text: Seq<char>, q: Seq<char>)
    requires
        starless(q),
    ensures
        wildcard(text, q) == (text == q),
{
    let none: Seq<char> = seq![];
    lemma_wildcard_literal(text, q, none);
    assert(q + none =~= q);
    if text::begins_with(text, q) && text.len() == q.len() {
        assert(text.subrange(0, q.len() as int) =~= text);
    }
    if text == q {
        assert(text.subrange(0, q.len() as int) =~= q);
    }
}

/// Pieces that fit make up a text that the pattern stands for.
proof fn lemma_fit_sound(text: Seq<char>, q: Seq<char>, pos: int)
    requires
        0 <= pos <= text.len(),
        pieces_fit(text, text::split_on(q, '*'), pos),
    ensures
        behind(text, q, pos),
    decreases q.len(),
{
    lemma_split_first(q);
    let i = text::position_of(q, '*', 0);
    let parts = text::split_on(q, '*');
    if i == q.len() {
        assert(parts.drop_last() =~= seq![]);
        let k = text.len() - q.len();
        assert(starless(q));
        lemma_wildcard_plain(text.skip(k), q);
        assert(text.subrange(k, text.len() as int) =~= text.skip(k));
    } else {
        text::lemma_first_occurrence(text, parts[0], pos);
        assert(parts.drop_last().drop_first() =~= parts.drop_first().drop_last());
        assert(parts.drop_last()[0] == parts[0]);
        let j = text::first_occurrence(text, parts[0], pos)->0;
        lemma_fit_sound(text, q.skip(i + 1), j + i);
        lemma_behind_step(text, q, j);
    }
}

/// The pieces of a pattern fit every text that the pattern stands for.
proof fn lemma_fit_complete(text: Seq<char>, q: Seq<char>, pos: int, k: int)
    requires
        0 <= pos <= k <= text.len(),
        wildcard(text.skip(k), q),
    ensures
        pieces_fit(text, text::split_on(q, '*'), pos),
    decreases q.len(),
{
    lemma_split_first(q);
    let i = text::position_of(q, '*', 0);
    let parts = text::split_on(q, '*');
    if i == q.len() {
        assert(parts.drop_last() =~= seq![]);
        assert(starless(q));
        lemma_wildcard_plain(text.skip(k), q);
        assert(text.subrange(k, text.len() as int) =~= text.skip(k));
    } else {
        text::lemma_first_occurrence(text, parts[0], pos);
        lemma_behind_step(text, q, k);
        let r = q.skip(i + 1);
        let m = choose|m: int| k + i <= m <= text.len() && wildcard(#[trigger] text.skip(m), r);
        let j = text::first_occurrence(text, parts[0], pos)->0;
        assert(text::occurs_at(text, parts[0], k));
        assert(j <= k);
        lemma_fit_complete(text, r, j + i, m);
        assert(parts.drop_last().drop_first() =~= parts.drop_first().drop_last());
        assert(parts.drop_last()[0] == parts[0]);
    }
}

/// What a pattern stands for, by its pieces: without a star it is its own text; otherwise the text
/// begins with the first piece, and the others fit behind it.
proof fn lemma_pieces(text: Seq<char>, pattern: Seq<char>)
    ensures
        ({
            let parts = text::split_on(pattern, '*');
            &&& parts.len() > 0
            &&& wildcard(text, pattern) == (if parts.len() == 1 {
                text == pattern
            } else {
                text::begins_with(text, parts[0]) && pieces_fit(
                    text,
                    parts.drop_first(),
                    parts[0].len() as int,
                )
            })
        }),
{
    lemma_split_first(pattern);
    let i = text::position_of(pattern, '*', 0);
    if i == pattern.len() {
        assert(starless(pattern));
        lemma_wildcard_plain(text, pattern);
    } else {
        let r = pattern.skip(i + 1);
        assert(text.skip(0) =~= text);
        lemma_behind_step(text, pattern, 0);
        if wildcard(text, pattern) {
            let m = choose|m: int| i <= m <= text.len() && wildcard(#[trigger] text.skip(m), r);
            lemma_fit_complete(text, r, i, m);
        }
        if text::begins_with(text, pattern.take(i)) && pieces_fit(text, text::split_on(r, '*'), i) {
            lemma_fit_sound(text, r, i);
        }
    }
}

/// A pattern without `*` stands for its own text and no other.
pub proof fn law_plain_pattern(text: Seq<char>, pattern: Seq<char>)
    requires
        !pattern.contains('*'),
    ensures
        wildcard(text, pattern) == (text == pattern),
{
    assert(starless(pattern)) by {
        if !starless(pattern) {
            let k = choose|k: int| 0 <= k < pattern.len() && pattern[k] == '*';
            assert(pattern.contains('*'));
        }
    }
    lemma_wildcard_plain(text, pattern);
}

/// A pattern with one `*` stands for the texts that begin with what stands before it and end in what
/// stands behind it, without the two overlapping.
pub proof fn law_one_star(text: Seq<char>, before: Seq<char>, behind_it: Seq<char>)
    requires
        starless(before),
        starless(behind_it),
    ensures
        wildcard(text, before + (seq!['*'] + behind_it)) == {
            &&& before.len() + behind_it.len() <= text.len()
            &&& text::begins_with(text, before)
            &&& text::occurs_at(text, behind_it, text.len() - behind_it.len())
        },
{
    lemma_wildcard_literal(text, before, seq!['*'] + behind_it);
    if text::begins_with(text, before) {
        let t = text.skip(before.len() as int);
        lemma_wildcard_star(t, behind_it);
        if wildcard(t, seq!['*'] + behind_it) {
            let k = choose|k: int|
                0 <= k <= t.len() && wildcard(#[trigger] t.skip(k), behind_it);
            lemma_wildcard_plain(t.skip(k), behind_it);
            assert(text.subrange(text.len() - behind_it.len(), text.len() as int) =~= t.skip(k));
        }
        let k = t.len() - behind_it.len();
        if k >= 0 && text::occurs_at(text, behind_it, text.len() - behind_it.len()) {
            assert(text.subrange(text.len() - behind_it.len(), text.len() as int) =~= t.skip(k));
            lemma_wildcard_plain(t.skip(k), behind_it);
        }
    }
}

/// A pattern with `~/` at its start replaced by the home directory.
pub open spec fn expanded(pattern: Seq<char>, home: Seq<char>) -> Seq<char> {
    if text::begins_with(pattern, "~/"@) {
        path::joined(home, pattern.skip(2))
    } else {
        pattern
    }
}

/// `pattern` with `~/` at its start replaced by the directory `home`.
pub fn expand_below(pattern: &str, home: &str) -> (r: String)
    ensures
        r@ == expanded(pattern@, home@),
{
    if text::starts_with(pattern, "~/") {
        proof {
            reveal_strlit("~/");
            assert(pattern@.subrange(2, pattern@.len() as int) =~= pattern@.skip(2));
        }
        let below = text::part_of(pattern, 2, pattern.unicode_len());
        path::join(home, below.as_str())
    } else {
        pattern.to_owned()
    }
}

/// `pattern` with `~/` at its start replaced by the home directory that was found, if any. A pattern
/// that begins otherwise stays as it is; one that needs a home directory gives nothing when there is
/// none.
pub fn expand_for(pattern: &str, home: Option<String>) -> (r: Option<String>)
    ensures
        match home {
            Some(h) => r.deep_view() == Some(expanded(pattern@, h@)),
            None => if text::begins_with(pattern@, "~/"@) {
                r is None
            } else {
                r.deep_view() == Some(pattern@)
            },
        },
{
    match home {
        Some(h) => Some(expand_below(pattern, h.as_str())),
        None => if text::starts_with(pattern, "~/") {
            None
        } else {
            Some(pattern.to_owned())
        },
    }
}

/// `pattern` with `~/` at its start replaced by the home directory that the environment names.
pub fn expand_home(pattern: &str) -> (r: Option<String>)
    ensures
        !text::begins_with(pattern@, "~/"@) ==> r.deep_view() == Some(pattern@),
        r matches Some(p) ==> exists|home: Seq<char>|
            home.len() > 0 && p@ == #[trigger] expanded(pattern@, home),
{
    let home = outside::home_dir();
    proof {
        if home is None && !text::begins_with(pattern@, "~/"@) {
            assert(expanded(pattern@, seq!['/']) == pattern@);
        }
    }
    expand_for(pattern, home)
}

/// The directory in which an expanded pattern looks for files, and the pattern of their names.
/// There is none when the pattern has no directory or no last component.
pub open spec fn location_of(pattern: Seq<char>) -> Option<(Seq<char>, Seq<char>)> {
    match (path::parent_of(pattern), path::file_name_of(pattern)) {
        (Some(dir), Some(name)) => Some((dir, name)),
        _ => None,
    }
}

/// The directory in which an expanded pattern looks for files, and the pattern of their names.
pub fn glob_location(pattern: &str) -> (r: Option<(String, String)>)
    ensures
        r.deep_view() == location_of(pattern@),
{
    match path::parent(pattern) {
        None => None,
        Some(dir) => match path::file_name(pattern) {
            None => None,
            Some(name) => Some((dir, name)),
        },
    }
}

/// A file of a directory: its name, and when it was last modified, in nanoseconds since 1970.
pub struct LogFile {
    pub name: String,
    pub modified: Option<i128>,
}

impl LogFile {
    /// The time by which files are ordered. A file whose time is not known counts as one of 1970.
    pub open spec fn time(self) -> i128 {
        match self.modified {
            Some(t) => t,
            None => 0,
        }
    }
}

/// Of the files whose names match, the `i`-th is the most recent one, and the last of those that
/// are equally recent.
pub open spec fn is_latest(files: Seq<LogFile>, file_pattern: Seq<char>, i: int) -> bool {
    &&& 0 <= i < files.len()
    &&& wildcard(files[i].name@, file_pattern)
    &&& forall|j: int|
        0 <= j < files.len() && wildcard((#[trigger] files[j]).name@, file_pattern)
            ==> files[j].time() <= files[i].time() && (j > i ==> files[j].time() < files[i].time())
}

/// The position of the most recent of `files` whose name matches.
pub fn latest_match(file_pattern: &str, files: &Vec<LogFile>) -> (r: Option<usize>)
    ensures
        match r {
            Some(i) => is_latest(files@, file_pattern@, i as int),
            None => forall|j: int|
                0 <= j < files@.len() ==> !wildcard((#[trigger] files@[j]).name@, file_pattern@),
        },
{
    let mut best: Option<usize> = None;
    let mut best_time: i128 = 0;
    let mut i: usize = 0;
    while i < files.len()
        invariant
            i <= files@.len(),
            match best {
                Some(b) => b < i && is_latest(files@.take(i as int), file_pattern@, b as int)
                    && best_time == files@[b as int].time(),
                None => forall|j: int|
                    0 <= j < i ==> !wildcard((#[trigger] files@[j]).name@, file_pattern@),
            },
        decreases files@.len() - i,
    {
        let ghost shorter = files@.take(i as int);
        let ghost longer = files@.take(i + 1);
        assert(forall|j: int| 0 <= j < i ==> #[trigger] longer[j] == shorter[j]);
        if matches_simple_glob(files[i].name.as_str(), file_pattern) {
            let t: i128 = match files[i].modified {
                Some(t) => t,
                None => 0,
            };
            let newer = match best {
                Some(_) => t >= best_time,
                None => true,
            };
            if newer {
                best = Some(i);
                best_time = t;
            }
        }
        i += 1;
    }
    assert(files@.take(files@.len() as int) =~= files@);
    best
}

/// The path of the most recent file of `dir` whose name matches.
pub fn resolve_glob_latest(dir: &str, file_pattern: &str, files: &Vec<LogFile>) -> (r: Option<
    String,
>)
    ensures
        match r {
            Some(p) => exists|i: int|
                #[trigger] is_latest(files@, file_pattern@, i) && p@ == path::joined(
                    dir@,
                    files@[i].name@,
                ),
            None => forall|j: int|
                0 <= j < files@.len() ==> !wildcard((#[trigger] files@[j]).name@, file_pattern@),
        },
{
    match latest_match(file_pattern, files) {
        Some(i) => {
            assert(is_latest(files@, file_pattern@, i as int));
            Some(path::join(dir, files[i].name.as_str()))
        },
        None => None,
    }
}

} // verus!
