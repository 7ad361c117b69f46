//! Laws of text: searching, trimming, cutting and formatting, said of the characters themselves.

use crate::text;
use vstd::prelude::*;

verus! {

/// A text contains another exactly when its characters stand there one by one.
pub proof fn law_contains_its_characters(s: Seq<char>, part: Seq<char>)
    ensures
        text::contains_text(s, part) == (exists|i: int|
            0 <= i <= s.len() - part.len() && #[trigger] s.subrange(i, i + part.len()) == part),
        text::begins_with(s, part) == (part.len() <= s.len() && s.take(part.len() as int) == part),
{
    if text::contains_text(s, part) {
        let i = choose|i: int| text::occurs_at(s, part, i);
        assert(s.subrange(i, i + part.len()) == part);
    }
    if exists|i: int|
        0 <= i <= s.len() - part.len() && #[trigger] s.subrange(i, i + part.len()) == part {
        let i = choose|i: int|
            0 <= i <= s.len() - part.len() && #[trigger] s.subrange(i, i + part.len()) == part;
        assert(text::occurs_at(s, part, i));
    }
    if part.len() <= s.len() {
        assert(s.subrange(0, part.len() as int) =~= s.take(part.len() as int));
    }
}

/// A part that stands between two texts is contained; one that is longer than the text is not.
pub proof fn law_contains_what_stands_inside(a: Seq<char>, part: Seq<char>, b: Seq<char>)
    ensures
        text::contains_text(a + part + b, part),
        a.len() + b.len() > 0 ==> !text::contains_text(part, a + part + b),
{
    let s = a + part + b;
    assert(s.subrange(a.len() as int, (a.len() + part.len()) as int) =~= part);
    assert(text::occurs_at(s, part, a.len() as int));
}

/// The first occurrence is an occurrence, and none is earlier; there is none exactly when the part
/// does not stand in the rest of the text.
pub proof fn law_first_occurrence_is_the_first(s: Seq<char>, part: Seq<char>, from: int)
    requires
        0 <= from,
    ensures
        match text::first_occurrence(s, part, from) {
            Some(j) => {
                &&& from <= j <= s.len() - part.len()
                &&& s.subrange(j, j + part.len()) == part
                &&& forall|k: int|
                    from <= k < j ==> #[trigger] s.subrange(k, k + part.len()) != part
            },
            None => forall|k: int|
                from <= k <= s.len() - part.len() ==> #[trigger] s.subrange(k, k + part.len())
                    != part,
        },
{
    text::lemma_first_occurrence(s, part, from);
    assert forall|k: int|
        from <= k <= s.len() - part.len() && !text::occurs_at(s, part, k) implies #[trigger] s.subrange(
        k,
        k + part.len(),
    ) != part by {}
}

/// The white characters by their code points.
pub proof fn law_white_characters(c: char)
    ensures
        text::is_white(c) == {
            let n = c as int;
            ||| n == 9 || n == 10 || n == 11 || n == 12 || n == 13 || n == 32 || n == 133 || n == 160
            ||| n == 5760 || 8192 <= n <= 8202 || n == 8232 || n == 8233 || n == 8239 || n == 8287
            ||| n == 12288
        },
{
}

proof fn lemma_trimmed_front_parts(s: Seq<char>) -> (a: int)
    ensures
        0 <= a <= s.len(),
        text::trimmed_front(s) == s.skip(a),
        forall|k: int| 0 <= k < a ==> text::is_white(#[trigger] s[k]),
        a < s.len() ==> !text::is_white(s[a]),
    decreases s.len(),
{
    if s.len() > 0 && text::is_white(s[0]) {
        let rest = s.drop_first();
        let a = lemma_trimmed_front_parts(rest);
        assert(rest.skip(a) =~= s.skip(a + 1));
        assert forall|k: int| 0 <= k < a + 1 implies text::is_white(#[trigger] s[k]) by {
            if k > 0 {
                assert(rest[k - 1] == s[k]);
            }
        }
        a + 1
    } else {
        assert(s.skip(0) =~= s);
        0
    }
}

proof fn lemma_trimmed_back_parts(s: Seq<char>) -> (b: int)
    ensures
        0 <= b <= s.len(),
        text::trimmed_back(s) == s.take(b),
        forall|k: int| b <= k < s.len() ==> text::is_white(#[trigger] s[k]),
        b > 0 ==> !text::is_white(s[b - 1]),
    decreases s.len(),
{
    if s.len() > 0 && text::is_white(s.last()) {
        let rest = s.drop_last();
        let b = lemma_trimmed_back_parts(rest);
        assert(rest.take(b) =~= s.take(b));
        assert forall|k: int| b <= k < s.len() implies text::is_white(#[trigger] s[k]) by {
            if k < rest.len() {
                assert(rest[k] == s[k]);
            }
        }
        b
    } else {
        assert(s.take(s.len() as int) =~= s);
        s.len() as int
    }
}

/// Trimming takes white space off both ends and nothing else, and leaves none there.
pub proof fn law_trim_takes_off_white_space_only(s: Seq<char>)
    ensures
        exists|a: int, b: int|
            {
                &&& 0 <= a <= b <= s.len()
                &&& text::trimmed(s) == #[trigger] s.subrange(a, b)
                &&& forall|k: int| 0 <= k < a || b <= k < s.len() ==> text::is_white(
                    #[trigger] s[k],
                )
            },
        text::trimmed(s).len() > 0 ==> !text::is_white(text::trimmed(s)[0]) && !text::is_white(
            text::trimmed(s).last(),
        ),
{
    let a = lemma_trimmed_front_parts(s);
    let front = s.skip(a);
    let n = lemma_trimmed_back_parts(front);
    let b = a + n;
    assert(front.take(n) =~= s.subrange(a, b));
    assert forall|k: int| 0 <= k < a || b <= k < s.len() implies text::is_white(#[trigger] s[k]) by {
        if b <= k {
            assert(front[k - a] == s[k]);
        }
    }
    if n > 0 {
        assert(front[0] == s[a]);
        assert(front.take(n)[0] == front[0]);
        assert(front.take(n).last() == front[n - 1]);
    }
}

/// A text with no white space at its ends is what is left of it with white space around it.
pub proof fn law_trim_undoes_padding(a: Seq<char>, s: Seq<char>, b: Seq<char>)
    requires
        forall|k: int| 0 <= k < a.len() ==> text::is_white(#[trigger] a[k]),
        forall|k: int| 0 <= k < b.len() ==> text::is_white(#[trigger] b[k]),
        s.len() > 0 ==> !text::is_white(s[0]) && !text::is_white(s.last()),
    ensures
        text::trimmed(a + s + b) == s,
{
    let all = a + s + b;
    law_trim_takes_off_white_space_only(all);
    let (x, y) = choose|x: int, y: int|
        {
            &&& 0 <= x <= y <= all.len()
            &&& text::trimmed(all) == #[trigger] all.subrange(x, y)
            &&& forall|k: int| 0 <= k < x || y <= k < all.len() ==> text::is_white(
                #[trigger] all[k],
            )
        };
    let t = text::trimmed(all);
    if s.len() > 0 {
        assert(all[a.len() as int] == s[0]);
        assert(all[a.len() + s.len() - 1] == s.last());
        assert(x <= a.len() && y >= a.len() + s.len());
        assert(t[0] == all[x] && t.last() == all[y - 1]);
        if x < a.len() {
            assert(all[x] == a[x]);
        }
        if y > a.len() + s.len() {
            assert(all[y - 1] == b[y - 1 - a.len() - s.len()]);
        }
        assert(all.subrange(x, y) =~= s);
    } else {
        if t.len() > 0 {
            assert(t[0] == all[x]);
            if x < a.len() {
                assert(all[x] == a[x]);
            } else {
                assert(all[x] == b[x - a.len()]);
            }
        }
        assert(t =~= s);
    }
}

/// Cutting a text at a character: a text without it is one piece, and what stands before the first
/// one is a piece of its own.
pub proof fn law_split_piece_by_piece(a: Seq<char>, c: char, rest: Seq<char>)
    requires
        !a.contains(c),
    ensures
        text::split_on(a, c) == seq![a],
        text::split_on(a + seq![c] + rest, c) == seq![a] + text::split_on(rest, c),
{
    text::lemma_position_of(a, c, 0);
    let i = text::position_of(a, c, 0);
    if i < a.len() {
        assert(a.contains(a[i]));
    }
    let s = a + seq![c] + rest;
    text::lemma_position_of(s, c, 0);
    let j = text::position_of(s, c, 0);
    assert(s[a.len() as int] == c);
    assert(j == a.len()) by {
        if j < a.len() {
            assert(s[j] == a[j]);
            assert(a.contains(a[j]));
        }
    }
    assert(s.take(j) =~= a);
    assert(s.skip(j + 1) =~= rest);
}

/// The lines of a text: none of an empty one, one of a text without a line feed, and otherwise what
/// stands before the first line feed, without a carriage return at its end, and the lines behind it.
pub proof fn law_lines_line_by_line(a: Seq<char>, rest: Seq<char>)
    requires
        !a.contains('\n'),
    ensures
        a.len() == 0 ==> text::lines_of(a) == Seq::<Seq<char>>::empty(),
        a.len() > 0 ==> text::lines_of(a) == seq![a],
        text::lines_of(a + seq!['\n'] + rest) == seq![
            if a.len() > 0 && a.last() == '\r' {
                a.drop_last()
            } else {
                a
            },
        ] + text::lines_of(rest),
{
    text::lemma_position_of(a, '\n', 0);
    let i = text::position_of(a, '\n', 0);
    if i < a.len() {
        assert(a.contains(a[i]));
    }
    let s = a + seq!['\n'] + rest;
    text::lemma_position_of(s, '\n', 0);
    let j = text::position_of(s, '\n', 0);
    assert(s[a.len() as int] == '\n');
    assert(j == a.len()) by {
        if j < a.len() {
            assert(s[j] == a[j]);
            assert(a.contains(a[j]));
        }
    }
    assert(s.take(j) =~= a);
    assert(s.skip(j + 1) =~= rest);
}

/// The number that a text of digits stands for.
pub open spec fn number_of(s: Seq<char>) -> int
    decreases s.len(),
{
    if s.len() == 0 {
        0
    } else {
        10 * number_of(s.drop_last()) + (s.last() as int - 48)
    }
}

/// A number in decimal notation is made of digits, stands for the number, and has no leading zero
/// unless it is zero itself.
pub proof fn law_decimal_stands_for_the_number(n: nat)
    ensures
        number_of(text::decimal(n)) == n,
        text::decimal(n).len() > 0,
        forall|i: int| 0 <= i < text::decimal(n).len() ==> 48 <= #[trigger] text::decimal(n)[i] as int
            <= 57,
        n > 0 ==> text::decimal(n)[0] as int != 48,
        n == 0 ==> text::decimal(n).len() == 1,
    decreases n,
{
    let d = text::decimal(n);
    if n < 10 {
        reveal_with_fuel(number_of, 2);
        assert(d =~= seq![text::digit(n as int)]);
        assert(d.drop_last() =~= seq![]);
    } else {
        law_decimal_stands_for_the_number(n / 10);
        let front = text::decimal(n / 10);
        assert(d.drop_last() =~= front);
        assert(d.last() == text::digit((n % 10) as int));
        assert forall|i: int| 0 <= i < d.len() implies 48 <= #[trigger] d[i] as int <= 57 by {
            if i < front.len() {
                assert(d[i] == front[i]);
            }
        }
        assert(d[0] == front[0]);
    }
}

/// Joining texts: nothing gives nothing, one text gives itself, and two lists joined one after the
/// other have the separator between them.
pub proof fn law_join_puts_the_separator_between(
    a: Seq<Seq<char>>,
    b: Seq<Seq<char>>,
    sep: Seq<char>,
    s: Seq<char>,
)
    ensures
        text::joined(seq![], sep) == Seq::<char>::empty(),
        text::joined(seq![s], sep) == s,
        a.len() > 0 && b.len() > 0 ==> text::joined(a + b, sep) == text::joined(a, sep) + sep
            + text::joined(b, sep),
    decreases b.len(),
{
    assert(seq![s].len() == 1);
    if a.len() > 0 && b.len() > 0 {
        let all = a + b;
        assert(all.drop_last() =~= a + b.drop_last());
        assert(all.last() == b.last());
        if b.len() == 1 {
            assert(b.drop_last() =~= seq![]);
            assert(all.drop_last() =~= a);
            assert(b =~= seq![b[0]]);
            assert(text::joined(all, sep) =~= text::joined(a, sep) + sep + text::joined(b, sep));
        } else {
            law_join_puts_the_separator_between(a, b.drop_last(), sep, s);
            assert(text::joined(all, sep) =~= text::joined(a, sep) + sep + text::joined(b, sep));
        }
    }
}

/// Padding keeps the text and adds spaces up to the width; shortening keeps the beginning.
pub proof fn law_padding_and_shortening(s: Seq<char>, n: nat)
    ensures
        text::padded(s, n).take(s.len() as int) == s,
        text::padded(s, n).len() == (if s.len() < n {
            n
        } else {
            s.len()
        }),
        forall|i: int|
            s.len() <= i < text::padded(s, n).len() ==> #[trigger] text::padded(s, n)[i] == ' ',
        text::shortened(s, n).len() == (if s.len() < n {
            s.len()
        } else {
            n
        }),
        text::shortened(s, n) == s.take(text::shortened(s, n).len() as int),
{
    assert(s.take(s.len() as int) =~= s);
    assert(text::padded(s, n).take(s.len() as int) =~= s);
}

} // verus!
