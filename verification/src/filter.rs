//! The extension filter: the pure predicate deciding which candidate paths
//! the scanner submits for hashing, by a fixed, case-sensitive allow-list of
//! image file extensions. Whether the path names a regular file is the
//! scanner's own test; this module only reads the path.

use vstd::prelude::*;

verus! {

/// Index of the last occurrence of `c` in `s`, or -1 when there is none.
pub open spec fn last_index_of(s: Seq<char>, c: char) -> int
    decreases s.len(),
{
    if s.len() == 0 {
        -1
    } else if s.last() == c {
        s.len() - 1
    } else {
        last_index_of(s.drop_last(), c)
    }
}

/// The extension of a path: the part of the file name (the last
/// `/`-separated component) after the file name's last dot. A dot at the
/// start of the file name (a hidden file) does not begin an extension, and
/// a file name without a dot has none.
pub open spec fn spec_extension(s: Seq<char>) -> Option<Seq<char>> {
    let sl = last_index_of(s, '/');
    let dot = last_index_of(s, '.');
    if dot > sl + 1 {
        Some(s.subrange(dot + 1, s.len() as int))
    } else {
        None
    }
}

/// The fixed allow-list of image file extensions, case-sensitive.
pub open spec fn is_known_extension(ext: Seq<char>) -> bool {
    ||| ext == "png"@
    ||| ext == "jpg"@
    ||| ext == "jpeg"@
    ||| ext == "gif"@
    ||| ext == "bmp"@
    ||| ext == "ico"@
    ||| ext == "tiff"@
    ||| ext == "webp"@
    ||| ext == "avif"@
    ||| ext == "pnm"@
    ||| ext == "dds"@
    ||| ext == "tga"@
}

/// The filter's verdict on a path.
pub open spec fn spec_accepts(s: Seq<char>) -> bool {
    spec_extension(s) matches Some(ext) && is_known_extension(ext)
}

/// Scanning one more character keeps the last index, or moves it there.
proof fn lemma_last_index_take_step(s: Seq<char>, c: char, i: int)
    requires
        0 <= i < s.len(),
    ensures
        last_index_of(s.take(i + 1), c) == if s[i] == c {
            i
        } else {
            last_index_of(s.take(i), c)
        },
{
    assert(s.take(i + 1).drop_last() =~= s.take(i));
    assert(s.take(i + 1).last() == s[i]);
}

/// Whether the suffix of `path` from `start` on reads exactly `lit`.
fn tail_eq(path: &str, start: usize, lit: &str) -> (b: bool)
    requires
        start <= path@.len(),
    ensures
        b == (path@.subrange(start as int, path@.len() as int) == lit@),
{
    let n = path.unicode_len();
    let m = lit.unicode_len();
    if n - start != m {
        proof {
            assert(path@.subrange(start as int, n as int).len() != lit@.len());
        }
        return false;
    }
    let mut i: usize = 0;
    while i < m
        invariant
            i <= m,
            m == lit@.len(),
            n == path@.len(),
            start + m == n,
            forall|k: int| 0 <= k < i ==> path@[start + k] == lit@[k],
        decreases m - i,
    {
        let pc = path.get_char(start + i);
        let lc = lit.get_char(i);
        if pc != lc {
            proof {
                assert(path@.subrange(start as int, n as int)[i as int] != lit@[i as int]);
            }
            return false;
        }
        i = i + 1;
    }
    proof {
        assert(path@.subrange(start as int, n as int) =~= lit@);
    }
    true
}

/// The extension filter: true iff the path carries an extension on the
/// allow-list. Deterministic, pure, no side effects.
pub fn accepts(path: &str) -> (b: bool)
    ensures
        b == spec_accepts(path@),
{
    let n = path.unicode_len();
    let mut sl_found = false;
    let mut sl: usize = 0;
    let mut dot_found = false;
    let mut dot: usize = 0;
    let mut i: usize = 0;
    proof {
        assert(path@.take(0) =~= Seq::<char>::empty());
    }
    while i < n
        invariant
            i <= n,
            n == path@.len(),
            sl_found ==> sl < i && last_index_of(path@.take(i as int), '/') == sl as int,
            !sl_found ==> last_index_of(path@.take(i as int), '/') == -1,
            dot_found ==> dot < i && last_index_of(path@.take(i as int), '.') == dot as int,
            !dot_found ==> last_index_of(path@.take(i as int), '.') == -1,
        decreases n - i,
    {
        proof {
            lemma_last_index_take_step(path@, '/', i as int);
            lemma_last_index_take_step(path@, '.', i as int);
        }
        let c = path.get_char(i);
        if c == '/' {
            sl_found = true;
            sl = i;
        }
        if c == '.' {
            dot_found = true;
            dot = i;
        }
        i = i + 1;
    }
    proof {
        assert(path@.take(n as int) =~= path@);
    }
    if !dot_found {
        return false;
    }
    let starts_extension = if sl_found {
        dot > sl + 1
    } else {
        dot > 0
    };
    if !starts_extension {
        return false;
    }
    let start = dot + 1;
    tail_eq(path, start, "png") || tail_eq(path, start, "jpg") || tail_eq(path, start, "jpeg")
        || tail_eq(path, start, "gif") || tail_eq(path, start, "bmp") || tail_eq(path, start, "ico")
        || tail_eq(path, start, "tiff") || tail_eq(path, start, "webp") || tail_eq(
        path,
        start,
        "avif",
    ) || tail_eq(path, start, "pnm") || tail_eq(path, start, "dds") || tail_eq(path, start, "tga")
}

} // verus!
