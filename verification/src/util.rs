//! Random identifier generation for humans reading emitted programs.
//!
//! Generated block and continuation names inside the compiler itself use a
//! monotone counter (see `cps`); these helpers produce readable random
//! suffixes for anything user-facing.

use vstd::prelude::*;

verus! {

/// Relies on rand::random_range: a uniform sample from `0..n`, which is
/// always below `n` and panics only on an empty range.
#[verifier::external_body]
fn random_index(n: usize) -> (r: usize)
    requires
        n > 0,
    ensures
        r < n,
{
    rand::random_range(0..n)
}

/// One uniformly chosen lower-case letter, as a one-character string slice.
fn random_letter() -> (s: &'static str)
    ensures
        s@.len() == 1,
        'a' <= s@[0] <= 'z',
{
    let i = random_index(26);
    proof {
        reveal_strlit("a");
        reveal_strlit("b");
        reveal_strlit("c");
        reveal_strlit("d");
        reveal_strlit("e");
        reveal_strlit("f");
        reveal_strlit("g");
        reveal_strlit("h");
        reveal_strlit("i");
        reveal_strlit("j");
        reveal_strlit("k");
        reveal_strlit("l");
        reveal_strlit("m");
        reveal_strlit("n");
        reveal_strlit("o");
        reveal_strlit("p");
        reveal_strlit("q");
        reveal_strlit("r");
        reveal_strlit("s");
        reveal_strlit("t");
        reveal_strlit("u");
        reveal_strlit("v");
        reveal_strlit("w");
        reveal_strlit("x");
        reveal_strlit("y");
        reveal_strlit("z");
    }
    match i {
        0 => "a",
        1 => "b",
        2 => "c",
        3 => "d",
        4 => "e",
        5 => "f",
        6 => "g",
        7 => "h",
        8 => "i",
        9 => "j",
        10 => "k",
        11 => "l",
        12 => "m",
        13 => "n",
        14 => "o",
        15 => "p",
        16 => "q",
        17 => "r",
        18 => "s",
        19 => "t",
        20 => "u",
        21 => "v",
        22 => "w",
        23 => "x",
        24 => "y",
        _ => "z",
    }
}

/// A name of exactly `tag.len() + n` characters: the given prefix followed by
/// `n` random lower-case letters.
pub fn random_name_tag(tag: &str, n: usize) -> (r: String)
    requires
        tag@.len() + n <= usize::MAX,
    ensures
        r@.len() == tag@.len() + n,
        r@.subrange(0, tag@.len() as int) == tag@,
        forall|k: int| tag@.len() <= k < r@.len() ==> 'a' <= #[trigger] r@[k] <= 'z',
{
    let mut s = tag.to_owned();
    let mut i: usize = 0;
    while i < n
        invariant
            i <= n,
            s@.len() == tag@.len() + i,
            s@.subrange(0, tag@.len() as int) == tag@,
            forall|k: int| tag@.len() <= k < s@.len() ==> 'a' <= #[trigger] s@[k] <= 'z',
        decreases n - i,
    {
        let c = random_letter();
        s.append(c);
        proof {
            assert(s@.subrange(0, tag@.len() as int) == tag@);
        }
        i = i + 1;
    }
    s
}

/// A fresh random name of ten lower-case letters.
pub fn random_name() -> (r: String)
    ensures
        r@.len() == 10,
{
    proof {
        reveal_strlit("");
    }
    random_name_tag("", 10)
}

} // verus!
