//! Case folding and other character-level helpers.
//!
//! Container extensions and codec names are compared case-insensitively;
//! this module defines the folding used for that comparison (ASCII lower
//! case) both as a specification and as executable code.

use vstd::prelude::*;

verus! {

/// ASCII lower-case folding of a single character.
pub open spec fn lower_char(c: char) -> char {
    if 'A' <= c && c <= 'Z' {
        (((c as u8) + 32) as char)
    } else {
        c
    }
}

/// ASCII lower-case folding of a whole character sequence.
pub open spec fn lower(s: Seq<char>) -> Seq<char> {
    s.map_values(|c: char| lower_char(c))
}

/// A sequence is already folded when folding it changes nothing.
pub open spec fn is_lower(s: Seq<char>) -> bool {
    lower(s) == s
}

/// Folding is idempotent: a folded sequence folds to itself.
pub proof fn lemma_lower_idem(s: Seq<char>)
    ensures
        lower(lower(s)) == lower(s),
{
    assert forall|i: int| 0 <= i < s.len() implies lower(lower(s))[i] == lower(s)[i] by {
        assert(lower(lower(s))[i] == lower_char(lower_char(s[i])));
    }
    assert(lower(lower(s)) =~= lower(s));
}

/// Executable ASCII lower-case folding of one character.
pub fn lower_char_exec(c: char) -> (r: char)
    ensures
        r == lower_char(c),
{
    if 'A' <= c && c <= 'Z' {
        ((c as u8) + 32) as char
    } else {
        c
    }
}

/// Relies on `String`'s `FromIterator<char>` implementation: collecting an
/// iterator of characters yields the string of exactly those characters in
/// order.
#[verifier::external_body]
pub fn chars_to_string(v: &Vec<char>) -> (r: String)
    ensures
        r@ == v@,
{
    v.iter().collect()
}

/// Collects a string slice into a vector of its characters.
pub fn str_to_chars(s: &str) -> (r: Vec<char>)
    ensures
        r@ == s@,
{
    let n: usize = s.unicode_len();
    let mut r: Vec<char> = Vec::new();
    let mut i: usize = 0;
    while i < n
        invariant
            n == s@.len(),
            i <= n,
            r@ == s@.take(i as int),
        decreases n - i,
    {
        r.push(s.get_char(i));
        assert(r@ =~= s@.take(i as int + 1));
        i = i + 1;
    }
    assert(r@ =~= s@);
    r
}

/// ASCII lower-case folding of a whole string.
pub fn to_lowercase(s: &str) -> (r: String)
    ensures
        r@ == lower(s@),
{
    let chars = str_to_chars(s);
    let n = chars.len();
    let mut out: Vec<char> = Vec::new();
    let mut i: usize = 0;
    while i < n
        invariant
            n == chars@.len(),
            chars@ == s@,
            i <= n,
            out@ == lower(s@.take(i as int)),
        decreases n - i,
    {
        out.push(lower_char_exec(chars[i]));
        assert(out@ =~= lower(s@.take(i as int + 1)));
        i = i + 1;
    }
    assert(out@ =~= lower(s@));
    chars_to_string(&out)
}

/// Three-way lexicographic comparison of character sequences, by Unicode
/// scalar value.
pub open spec fn chars_cmp(a: Seq<char>, b: Seq<char>) -> core::cmp::Ordering
    decreases a.len(),
{
    if a.len() == 0 && b.len() == 0 {
        core::cmp::Ordering::Equal
    } else if a.len() == 0 {
        core::cmp::Ordering::Less
    } else if b.len() == 0 {
        core::cmp::Ordering::Greater
    } else if (a[0] as u32) < (b[0] as u32) {
        core::cmp::Ordering::Less
    } else if (a[0] as u32) > (b[0] as u32) {
        core::cmp::Ordering::Greater
    } else {
        chars_cmp(a.skip(1), b.skip(1))
    }
}

/// `chars_cmp` reports `Equal` exactly on equal sequences.
pub proof fn lemma_chars_cmp_equal(a: Seq<char>, b: Seq<char>)
    ensures
        chars_cmp(a, b) is Equal <==> a == b,
    decreases a.len(),
{
    if a.len() != 0 && b.len() != 0 && a[0] as u32 == b[0] as u32 {
        proof_chars_eq_from_u32(a[0], b[0]);
        lemma_chars_cmp_equal(a.skip(1), b.skip(1));
        if chars_cmp(a, b) is Equal {
            assert(a.skip(1) == b.skip(1));
            assert forall|i: int| 1 <= i < a.len() implies a[i] == b[i] by {
                assert(a[i] == a.skip(1)[i - 1]);
                assert(b[i] == b.skip(1)[i - 1]);
            }
            assert(a =~= b);
        }
        if a == b {
            assert(a.skip(1) =~= b.skip(1));
        }
    } else {
        if a.len() == 0 && b.len() == 0 {
            assert(a =~= b);
        }
        if a == b && a.len() != 0 {
            assert(a[0] == b[0]);
        }
    }
}

/// Two characters with the same scalar value are the same character.
proof fn proof_chars_eq_from_u32(a: char, b: char)
    requires
        a as u32 == b as u32,
    ensures
        a == b,
{
    vstd::utf8::char_u32_cast(a, a as u32);
    vstd::utf8::char_u32_cast(b, b as u32);
}

/// `chars_cmp` is antisymmetric: swapping the arguments swaps the verdict.
pub proof fn lemma_chars_cmp_antisym(a: Seq<char>, b: Seq<char>)
    ensures
        chars_cmp(a, b) is Less <==> chars_cmp(b, a) is Greater,
    decreases a.len(),
{
    if a.len() != 0 && b.len() != 0 && a[0] as u32 == b[0] as u32 {
        lemma_chars_cmp_antisym(a.skip(1), b.skip(1));
    }
}

/// `Less` verdicts of `chars_cmp` chain transitively.
pub proof fn lemma_chars_cmp_trans(a: Seq<char>, b: Seq<char>, c: Seq<char>)
    requires
        chars_cmp(a, b) is Less,
        chars_cmp(b, c) is Less,
    ensures
        chars_cmp(a, c) is Less,
    decreases a.len(),
{
    if a.len() != 0 && b.len() != 0 && c.len() != 0 && a[0] as u32 == b[0] as u32 && b[0] as u32
        == c[0] as u32 {
        lemma_chars_cmp_trans(a.skip(1), b.skip(1), c.skip(1));
    }
}

/// Executable three-way comparison of two strings, matching `chars_cmp` on
/// their character sequences.
pub fn str_cmp(a: &str, b: &str) -> (o: core::cmp::Ordering)
    ensures
        o == chars_cmp(a@, b@),
{
    let av = str_to_chars(a);
    let bv = str_to_chars(b);
    let mut i: usize = 0;
    proof {
        assert(a@.skip(0) =~= a@);
        assert(b@.skip(0) =~= b@);
    }
    loop
        invariant
            av@ == a@,
            bv@ == b@,
            i <= av@.len(),
            i <= bv@.len(),
            chars_cmp(a@, b@) == chars_cmp(a@.skip(i as int), b@.skip(i as int)),
        decreases av@.len() - i,
    {
        proof {
            lemma_chars_cmp_step(a@, b@, i as int);
        }
        if i >= av.len() && i >= bv.len() {
            return core::cmp::Ordering::Equal;
        }
        if i >= av.len() {
            return core::cmp::Ordering::Less;
        }
        if i >= bv.len() {
            return core::cmp::Ordering::Greater;
        }
        let x = av[i] as u32;
        let y = bv[i] as u32;
        if x < y {
            return core::cmp::Ordering::Less;
        }
        if x > y {
            return core::cmp::Ordering::Greater;
        }
        i = i + 1;
    }
}

/// Unfolds one step of `chars_cmp` on the suffixes starting at `i`.
proof fn lemma_chars_cmp_step(a: Seq<char>, b: Seq<char>, i: int)
    requires
        0 <= i <= a.len(),
        0 <= i <= b.len(),
    ensures
        i < a.len() && i < b.len() && a[i] as u32 == b[i] as u32 ==> chars_cmp(
            a.skip(i),
            b.skip(i),
        ) == chars_cmp(a.skip(i + 1), b.skip(i + 1)),
        i == a.len() && i == b.len() ==> chars_cmp(a.skip(i), b.skip(i)) is Equal,
        i == a.len() && i < b.len() ==> chars_cmp(a.skip(i), b.skip(i)) is Less,
        i < a.len() && i == b.len() ==> chars_cmp(a.skip(i), b.skip(i)) is Greater,
        i < a.len() && i < b.len() && (a[i] as u32) < (b[i] as u32) ==> chars_cmp(
            a.skip(i),
            b.skip(i),
        ) is Less,
        i < a.len() && i < b.len() && (a[i] as u32) > (b[i] as u32) ==> chars_cmp(
            a.skip(i),
            b.skip(i),
        ) is Greater,
{
    if i < a.len() && i < b.len() && a[i] as u32 == b[i] as u32 {
        assert(a.skip(i).skip(1) =~= a.skip(i + 1));
        assert(b.skip(i).skip(1) =~= b.skip(i + 1));
    }
}

/// The character for a single decimal digit.
pub open spec fn digit_char(d: nat) -> char
    recommends
        d < 10,
{
    ((48 + d) as u8) as char
}

/// The decimal notation of a natural number, most significant digit first.
pub open spec fn dec_str(n: nat) -> Seq<char>
    decreases n,
{
    if n < 10 {
        seq![digit_char(n)]
    } else {
        dec_str(n / 10).push(digit_char(n % 10))
    }
}

/// Appends the decimal notation of `n` to `out`.
pub fn push_dec(n: u32, out: &mut Vec<char>)
    ensures
        final(out)@ == old(out)@ + dec_str(n as nat),
    decreases n,
{
    if n < 10 {
        out.push((48 + (n as u8)) as char);
        assert(final(out)@ =~= old(out)@ + dec_str(n as nat));
    } else {
        push_dec(n / 10, out);
        out.push((48 + ((n % 10) as u8)) as char);
        assert(final(out)@ =~= old(out)@ + dec_str(n as nat));
    }
}

/// The decimal notation of a number, as a string.
pub fn u32_to_string(n: u32) -> (r: String)
    ensures
        r@ == dec_str(n as nat),
{
    let mut v: Vec<char> = Vec::new();
    push_dec(n, &mut v);
    assert(v@ =~= dec_str(n as nat));
    chars_to_string(&v)
}

} // verus!
