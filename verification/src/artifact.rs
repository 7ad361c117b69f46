//! The identity of a dylib: its SHA-256 digest, by which a rebuild since the last patch is noticed.

use crate::outside;
use crate::registry::{ArtifactInfo, HookEntry};
use crate::text;
use vstd::prelude::*;

verus! {

/// The hexadecimal digit of `n`, in lower case.
pub open spec fn hex_digit(n: int) -> char {
    if n == 10 {
        'a'
    } else if n == 11 {
        'b'
    } else if n == 12 {
        'c'
    } else if n == 13 {
        'd'
    } else if n == 14 {
        'e'
    } else if n == 15 {
        'f'
    } else {
        text::digit(n)
    }
}

/// Two hexadecimal digits for each byte, the higher one first.
pub open spec fn hex_of(bytes: Seq<u8>) -> Seq<char>
    decreases bytes.len(),
{
    if bytes.len() == 0 {
        seq![]
    } else {
        hex_of(bytes.drop_last()).push(hex_digit(bytes.last() as int / 16)).push(
            hex_digit(bytes.last() as int % 16),
        )
    }
}

/// The SHA-256 digest of `data` as it is written in a registry.
pub open spec fn fingerprint(data: Seq<u8>) -> Seq<char> {
    hex_of(outside::sha256_of(data))
}

/// The hexadecimal digit of `n` as text.
fn hex_digit_text(n: u8) -> (r: &'static str)
    requires
        n < 16,
    ensures
        r@ == seq![hex_digit(n as int)],
{
    proof {
        reveal_strlit("0");
        reveal_strlit("1");
        reveal_strlit("2");
        reveal_strlit("3");
        reveal_strlit("4");
        reveal_strlit("5");
        reveal_strlit("6");
        reveal_strlit("7");
        reveal_strlit("8");
        reveal_strlit("9");
        reveal_strlit("a");
        reveal_strlit("b");
        reveal_strlit("c");
        reveal_strlit("d");
        reveal_strlit("e");
        reveal_strlit("f");
    }
    let r: &'static str = match n {
        0 => "0",
        1 => "1",
        2 => "2",
        3 => "3",
        4 => "4",
        5 => "5",
        6 => "6",
        7 => "7",
        8 => "8",
        9 => "9",
        10 => "a",
        11 => "b",
        12 => "c",
        13 => "d",
        14 => "e",
        _ => "f",
    };
    assert(r@ =~= seq![hex_digit(n as int)]);
    r
}

/// `bytes` in lower-case hexadecimal.
pub fn hex(bytes: &Vec<u8>) -> (r: String)
    ensures
        r@ == hex_of(bytes@),
{
    let mut r = String::new();
    let mut i: usize = 0;
    assert(bytes@.take(0) =~= seq![]);
    while i < bytes.len()
        invariant
            i <= bytes@.len(),
            r@ == hex_of(bytes@.take(i as int)),
        decreases bytes@.len() - i,
    {
        let b: u8 = bytes[i];
        let ghost before = r@;
        r.append(hex_digit_text(b / 16));
        r.append(hex_digit_text(b % 16));
        proof {
            assert(bytes@.take(i + 1).drop_last() =~= bytes@.take(i as int));
            assert(bytes@.take(i + 1).last() == b);
            assert(r@ =~= before.push(hex_digit(b as int / 16)).push(hex_digit(b as int % 16)));
        }
        i += 1;
    }
    assert(bytes@.take(bytes@.len() as int) =~= bytes@);
    r
}

/// The identity of a dylib of `size` bytes whose digest is `digest`, patched in at `patched_at`;
/// `git_output` is what `git rev-parse` printed, when it could be run.
pub fn artifact_of(
    digest: &Vec<u8>,
    size: u64,
    patched_at: String,
    git_output: Option<String>,
) -> (r: ArtifactInfo)
    ensures
        r.sha256@ == hex_of(digest@),
        r.size == size,
        r.patched_at@ == patched_at@,
        match git_output {
            Some(o) => r.git_commit.deep_view() == Some(text::trimmed(o@)),
            None => r.git_commit is None,
        },
{
    ArtifactInfo {
        sha256: hex(digest),
        size,
        patched_at,
        git_commit: match git_output {
            Some(o) => Some(text::trim(o.as_str())),
            None => None,
        },
    }
}

/// The identity of the dylib `data`, patched in now; `git_output` is what `git rev-parse` printed,
/// when it succeeded.
pub fn compute_artifact_info(data: &[u8], git_output: Option<&[u8]>) -> (r: ArtifactInfo)
    ensures
        r.sha256@ == fingerprint(data@),
        r.sha256@.len() == 64,
        r.size == data@.len(),
        outside::is_utc(r.patched_at@),
        match git_output {
            Some(o) => r.git_commit.deep_view() == Some(text::trimmed(outside::lossy_text_of(o@))),
            None => r.git_commit is None,
        },
{
    let digest = outside::sha256(data);
    proof {
        law_hex_length(digest@);
    }
    let git = match git_output {
        Some(o) => Some(outside::lossy_text(o)),
        None => None,
    };
    artifact_of(&digest, data.len() as u64, outside::utc_now(), git)
}

/// Whether a dylib whose digest is `digest` is the one that `artifact` describes.
pub fn digest_matches(artifact: &ArtifactInfo, digest: &Vec<u8>) -> (r: bool)
    ensures
        r == (artifact.sha256@ == hex_of(digest@)),
{
    text::text_eq(hex(digest).as_str(), artifact.sha256.as_str())
}

/// Checks whether the dylib on disk matches the digest that is registered for it; `data` is what
/// the file holds, when it can be read. Returns `Some(true)` if it matches, `Some(false)` if it is
/// stale, and `None` if there is no registered digest or no file to check.
pub fn check_artifact_stale(entry: &HookEntry, data: Option<&[u8]>) -> (r: Option<bool>)
    ensures
        match (entry.artifact, data) {
            (Some(a), Some(d)) => r == Some(a.sha256@ == fingerprint(d@)),
            _ => r is None,
        },
{
    match (&entry.artifact, data) {
        (Some(a), Some(d)) => {
            let digest = outside::sha256(d);
            Some(digest_matches(a, &digest))
        },
        _ => None,
    }
}

/// A byte is known by its two hexadecimal digits.
proof fn lemma_hex_byte(a: int, b: int)
    requires
        0 <= a < 16,
        0 <= b < 16,
        hex_digit(a) == hex_digit(b),
    ensures
        a == b,
{
}

/// Different byte sequences have different hexadecimal texts.
pub proof fn law_hex_is_injective(a: Seq<u8>, b: Seq<u8>)
    requires
        hex_of(a) == hex_of(b),
    ensures
        a == b,
    decreases a.len(),
{
    let x = hex_of(a);
    let y = hex_of(b);
    if a.len() == 0 {
        assert(x.len() == 0);
        assert(b.len() == 0);
        assert(a =~= b);
    } else {
        assert(x.len() > 0);
        assert(b.len() > 0);
        assert(x.drop_last().drop_last() =~= hex_of(a.drop_last()));
        assert(y.drop_last().drop_last() =~= hex_of(b.drop_last()));
        law_hex_is_injective(a.drop_last(), b.drop_last());
        assert(x.last() == hex_digit(a.last() as int % 16));
        assert(y.last() == hex_digit(b.last() as int % 16));
        assert(x.drop_last().last() == hex_digit(a.last() as int / 16));
        assert(y.drop_last().last() == hex_digit(b.last() as int / 16));
        lemma_hex_byte(a.last() as int % 16, b.last() as int % 16);
        lemma_hex_byte(a.last() as int / 16, b.last() as int / 16);
        assert(a =~= a.drop_last().push(a.last()));
        assert(b =~= b.drop_last().push(b.last()));
    }
}

/// A registered digest has two characters for each byte of the digest.
pub proof fn law_hex_length(bytes: Seq<u8>)
    ensures
        hex_of(bytes).len() == 2 * bytes.len(),
    decreases bytes.len(),
{
    if bytes.len() > 0 {
        law_hex_length(bytes.drop_last());
    }
}

/// A file that was registered as `patched` is found up to date exactly when the file on disk has
/// the same SHA-256 digest; so an unchanged file is never reported as stale.
pub proof fn law_stale_means_other_digest(patched: Seq<u8>, on_disk: Seq<u8>)
    ensures
        (fingerprint(patched) == fingerprint(on_disk)) == (outside::sha256_of(patched)
            == outside::sha256_of(on_disk)),
{
    if fingerprint(patched) == fingerprint(on_disk) {
        law_hex_is_injective(outside::sha256_of(patched), outside::sha256_of(on_disk));
    }
}

} // verus!
