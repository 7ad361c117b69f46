//! Laws of digests as text and of log file patterns, said character by character.

use crate::artifact;
use crate::glob::{self, LogFile};
use crate::outside;
use crate::path;
use crate::path_laws;
use crate::path_text_laws;
use vstd::prelude::*;

verus! {

/// The i-th byte stands at the places 2i and 2i + 1 of the hexadecimal text, its higher half first,
/// each half as a digit or as a letter from `a` on.
pub proof fn law_hex_byte_by_byte(bytes: Seq<u8>, i: int)
    requires
        0 <= i < bytes.len(),
    ensures
        ({
            let s = artifact::hex_of(bytes);
            let high = bytes[i] as int / 16;
            let low = bytes[i] as int % 16;
            &&& s.len() == 2 * bytes.len()
            &&& s[2 * i] as int == (if high < 10 {
                '0' as int + high
            } else {
                'a' as int + (high - 10)
            })
            &&& s[2 * i + 1] as int == (if low < 10 {
                '0' as int + low
            } else {
                'a' as int + (low - 10)
            })
        }),
    decreases bytes.len(),
{
    artifact::law_hex_length(bytes);
    artifact::law_hex_length(bytes.drop_last());
    if i < bytes.len() - 1 {
        law_hex_byte_by_byte(bytes.drop_last(), i);
    }
}

/// The digest that is registered for a dylib is the SHA-256 digest of its bytes in hexadecimal.
pub proof fn law_fingerprint_is_the_digest_in_hexadecimal(data: Seq<u8>, i: int)
    requires
        0 <= i < outside::sha256_of(data).len(),
    ensures
        ({
            let s = artifact::fingerprint(data);
            let b = outside::sha256_of(data)[i] as int;
            &&& s.len() == 2 * outside::sha256_of(data).len()
            &&& s[2 * i] as int == (if b / 16 < 10 {
                '0' as int + b / 16
            } else {
                'a' as int + (b / 16 - 10)
            })
            &&& s[2 * i + 1] as int == (if b % 16 < 10 {
                '0' as int + b % 16
            } else {
                'a' as int + (b % 16 - 10)
            })
        }),
{
    law_hex_byte_by_byte(outside::sha256_of(data), i);
}

/// A pattern of one character: the empty pattern stands for the empty text, a star for every text,
/// and any other character for itself.
pub proof fn law_pattern_character_by_character(text: Seq<char>, c: char)
    ensures
        glob::wildcard(text, seq![]) == (text.len() == 0),
        glob::wildcard(text, seq!['*']),
        c != '*' ==> glob::wildcard(text, seq![c]) == (text == seq![c]),
    decreases text.len(),
{
    let none: Seq<char> = seq![];
    let star = seq!['*'];
    let one = seq![c];
    assert(star.drop_first() =~= none);
    assert(one.drop_first() =~= none);
    if text.len() > 0 {
        law_pattern_character_by_character(text.drop_first(), c);
        if text.len() == 1 && text[0] == c {
            assert(text =~= one);
        }
    }
}

/// A pattern that is put together from two stands for the texts that are put together from one text
/// of each.
pub proof fn law_pattern_part_by_part(text: Seq<char>, p: Seq<char>, q: Seq<char>)
    ensures
        glob::wildcard(text, p + q) == (exists|k: int|
            {
                &&& 0 <= k <= text.len()
                &&& glob::wildcard(#[trigger] text.take(k), p)
                &&& glob::wildcard(text.skip(k), q)
            }),
    decreases p.len(), text.len(),
{
    let both = p + q;
    if p.len() == 0 {
        assert(both =~= q);
        assert(text.skip(0) =~= text);
        assert(glob::wildcard(text.take(0), p));
        if exists|k: int|
            {
                &&& 0 <= k <= text.len()
                &&& glob::wildcard(#[trigger] text.take(k), p)
                &&& glob::wildcard(text.skip(k), q)
            } {
            let k = choose|k: int|
                {
                    &&& 0 <= k <= text.len()
                    &&& glob::wildcard(#[trigger] text.take(k), p)
                    &&& glob::wildcard(text.skip(k), q)
                };
            assert(text.take(k).len() == 0);
        }
    } else {
        let rest = p.drop_first();
        assert(both[0] == p[0]);
        assert(both.drop_first() =~= rest + q);
        if p[0] == '*' {
            law_pattern_part_by_part(text, rest, q);
        }
        if text.len() > 0 {
            let t = text.drop_first();
            law_pattern_part_by_part(
                t,
                if p[0] == '*' {
                    p
                } else {
                    rest
                },
                q,
            );
            assert forall|k: int| 0 <= k <= t.len() implies {
                &&& #[trigger] t.take(k) == text.take(k + 1).drop_first()
                &&& t.skip(k) == text.skip(k + 1)
            } by {
                assert(t.take(k) =~= text.take(k + 1).drop_first());
                assert(t.skip(k) =~= text.skip(k + 1));
            }
        }
        if glob::wildcard(text, both) {
            lemma_split_of_a_match(text, p, q);
        }
        if exists|k: int|
            {
                &&& 0 <= k <= text.len()
                &&& glob::wildcard(#[trigger] text.take(k), p)
                &&& glob::wildcard(text.skip(k), q)
            } {
            let k = choose|k: int|
                {
                    &&& 0 <= k <= text.len()
                    &&& glob::wildcard(#[trigger] text.take(k), p)
                    &&& glob::wildcard(text.skip(k), q)
                };
            let first = text.take(k);
            if p[0] == '*' && glob::wildcard(first, rest) {
                assert(glob::wildcard(text, rest + q));
            } else {
                assert(k > 0);
                let t = text.drop_first();
                assert(t.take(k - 1) == text.take(k).drop_first());
                assert(glob::wildcard(t.take(k - 1), if p[0] == '*' {
                    p
                } else {
                    rest
                }));
            }
        }
    }
}

/// A text of a pattern that is put together from two can be split.
proof fn lemma_split_of_a_match(text: Seq<char>, p: Seq<char>, q: Seq<char>)
    requires
        glob::wildcard(text, p + q),
    ensures
        exists|k: int|
            {
                &&& 0 <= k <= text.len()
                &&& glob::wildcard(#[trigger] text.take(k), p)
                &&& glob::wildcard(text.skip(k), q)
            },
    decreases p.len(), text.len(),
{
    let both = p + q;
    if p.len() == 0 {
        assert(both =~= q);
        assert(text.skip(0) =~= text);
        assert(glob::wildcard(text.take(0), p));
    } else {
        let rest = p.drop_first();
        assert(both[0] == p[0]);
        assert(both.drop_first() =~= rest + q);
        if p[0] == '*' && glob::wildcard(text, rest + q) {
            lemma_split_of_a_match(text, rest, q);
            let k = choose|k: int|
                {
                    &&& 0 <= k <= text.len()
                    &&& glob::wildcard(#[trigger] text.take(k), rest)
                    &&& glob::wildcard(text.skip(k), q)
                };
            assert(glob::wildcard(text.take(k), p));
        } else {
            let t = text.drop_first();
            let p1 = if p[0] == '*' {
                p
            } else {
                rest
            };
            lemma_split_of_a_match(t, p1, q);
            let k = choose|k: int|
                {
                    &&& 0 <= k <= t.len()
                    &&& glob::wildcard(#[trigger] t.take(k), p1)
                    &&& glob::wildcard(t.skip(k), q)
                };
            assert(t.take(k) =~= text.take(k + 1).drop_first());
            assert(t.skip(k) =~= text.skip(k + 1));
            assert(text.take(k + 1)[0] == text[0]);
            assert(glob::wildcard(text.take(k + 1), p));
        }
    }
}

/// The most recent match is a match, no match was modified later, and of the matches that were
/// modified at the same time it is the last; a file of unknown time counts as one of time 0. There
/// is no second one.
pub proof fn law_latest_is_the_most_recent_match(
    files: Seq<LogFile>,
    file_pattern: Seq<char>,
    i: int,
    j: int,
)
    requires
        glob::is_latest(files, file_pattern, i),
    ensures
        0 <= i < files.len(),
        glob::wildcard(files[i].name@, file_pattern),
        0 <= j < files.len() && glob::wildcard(files[j].name@, file_pattern) ==> {
            let ti = match files[i].modified {
                Some(t) => t as int,
                None => 0,
            };
            let tj = match files[j].modified {
                Some(t) => t as int,
                None => 0,
            };
            tj < ti || (tj == ti && j <= i)
        },
        glob::is_latest(files, file_pattern, j) ==> j == i,
{
}

/// A `~/` at the start of a pattern is replaced by the home directory, and nothing else is.
pub proof fn law_home_directory_is_put_in(pattern: Seq<char>, rest: Seq<char>, home: Seq<char>)
    requires
        home.len() > 0,
        home.last() != '/',
        rest.len() == 0 || rest[0] != '/',
    ensures
        glob::expanded(seq!['~', '/'] + rest, home) == home + seq!['/'] + rest,
        pattern.len() < 2 || pattern[0] != '~' || pattern[1] != '/' ==> glob::expanded(
            pattern,
            home,
        ) == pattern,
{
    reveal_strlit("~/");
    let p = seq!['~', '/'] + rest;
    assert(p.subrange(0, 2) =~= "~/"@);
    assert(p.skip(2) =~= rest);
    assert(home.push('/') + rest =~= home + seq!['/'] + rest);
    if pattern.len() >= 2 {
        assert(pattern.subrange(0, 2)[0] == pattern[0]);
        assert(pattern.subrange(0, 2)[1] == pattern[1]);
        assert("~/"@[0] == '~' && "~/"@[1] == '/');
    }
}

/// A pattern looks in the directory that stands before its last component, for names that match its
/// last component; the empty pattern and the root look nowhere.
pub proof fn law_pattern_looks_in_its_directory(
    base: Seq<char>,
    dir: Seq<char>,
    name: Seq<char>,
)
    requires
        path_laws::is_plain_name(dir),
        path_laws::is_plain_name(name),
    ensures
        glob::location_of(base + seq!['/'] + dir + seq!['/'] + name) == Some(
            (base + seq!['/'] + dir, name),
        ),
        glob::location_of(name) == Some((Seq::<char>::empty(), name)),
        glob::location_of(seq!['/'] + name) == Some((seq!['/'], name)),
        glob::location_of(seq!['/']) is None,
        glob::location_of(seq![]) is None,
        glob::location_of(base + seq!['/', '.', '.']) is None,
{
    path_text_laws::law_parent_and_name_of_a_path(base, dir, name);
    path_text_laws::law_names_without_a_directory(name);
    path_text_laws::law_paths_without_a_name();
    path_text_laws::law_no_name_behind_two_dots(base);
}

} // verus!
