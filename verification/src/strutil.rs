//! String primitives shared by the server core: decimal rendering, lexicographic
//! order on character sequences, substring search, and path-segment splitting.

use vstd::prelude::*;

verus! {

/// The decimal digit character for `d` (`d < 10`).
pub open spec fn digit_char(d: nat) -> char {
    if d == 0 { '0' }
    else if d == 1 { '1' }
    else if d == 2 { '2' }
    else if d == 3 { '3' }
    else if d == 4 { '4' }
    else if d == 5 { '5' }
    else if d == 6 { '6' }
    else if d == 7 { '7' }
    else if d == 8 { '8' }
    else { '9' }
}

/// The usual decimal rendering of `n`, without sign or leading zeros.
pub open spec fn spec_dec(n: nat) -> Seq<char>
    decreases n,
{
    if n < 10 {
        seq![digit_char(n)]
    } else {
        spec_dec(n / 10) + seq![digit_char(n % 10)]
    }
}

fn digit_str(d: u64) -> (r: &'static str)
    requires
        d < 10,
    ensures
        r@ == seq![digit_char(d as nat)],
{
    proof {
        reveal_strlit("0");
        reveal_strlit("1");
        reveal_strlit("2");
        reveal_strlit("3");
        reveal_strlit("4");
        reveal_strlit("5");
        reveal_strlit("6");
        reveal_strlit("7");
        reveal_strlit("8");
        reveal_strlit("9");
    }
    let r = match d {
        0 => "0",
        1 => "1",
        2 => "2",
        3 => "3",
        4 => "4",
        5 => "5",
        6 => "6",
        7 => "7",
        8 => "8",
        _ => "9",
    };
    proof {
        assert(r@ =~= seq![digit_char(d as nat)]);
    }
    r
}

/// Renders `n` in decimal.
pub fn u64_to_dec(n: u64) -> (r: String)
    ensures
        r@ == spec_dec(n as nat),
    decreases n,
{
    if n < 10 {
        let s = digit_str(n);
        let r = s.to_owned();
        r
    } else {
        let mut r = u64_to_dec(n / 10);
        r.append(digit_str(n % 10));
        proof {
            assert(r@ =~= spec_dec(n as nat));
        }
        r
    }
}

/// Lexicographic (codepoint) order on character sequences: `a` is less than or
/// equal to `b`.
pub open spec fn lex_le(a: Seq<char>, b: Seq<char>) -> bool
    decreases a.len(),
{
    if a.len() == 0 {
        true
    } else if b.len() == 0 {
        false
    } else if a[0] != b[0] {
        (a[0] as u32) < (b[0] as u32)
    } else {
        lex_le(a.skip(1), b.skip(1))
    }
}

/// Distinct characters have distinct codepoints.
pub proof fn lemma_char_cast_injective(c1: char, c2: char)
    requires
        c1 != c2,
    ensures
        c1 as u32 != c2 as u32,
{
    if c1 as u32 == c2 as u32 {
        vstd::utf8::char_u32_cast(c1, c1 as u32);
        vstd::utf8::char_u32_cast(c2, c2 as u32);
    }
}

pub proof fn lemma_lex_le_total(a: Seq<char>, b: Seq<char>)
    ensures
        lex_le(a, b) || lex_le(b, a),
    decreases a.len(),
{
    if a.len() != 0 && b.len() != 0 {
        if a[0] == b[0] {
            lemma_lex_le_total(a.skip(1), b.skip(1));
        } else {
            lemma_char_cast_injective(a[0], b[0]);
        }
    }
}

pub proof fn lemma_lex_le_trans(a: Seq<char>, b: Seq<char>, c: Seq<char>)
    requires
        lex_le(a, b),
        lex_le(b, c),
    ensures
        lex_le(a, c),
    decreases a.len(),
{
    if a.len() != 0 && b.len() != 0 && c.len() != 0 && a[0] == b[0] && b[0] == c[0] {
        lemma_lex_le_trans(a.skip(1), b.skip(1), c.skip(1));
    }
}

/// When the first `i` characters agree, the order is decided by the tails.
proof fn lemma_lex_le_common_prefix(a: Seq<char>, b: Seq<char>, i: int)
    requires
        0 <= i <= a.len(),
        i <= b.len(),
        a.subrange(0, i) == b.subrange(0, i),
    ensures
        lex_le(a, b) == lex_le(a.skip(i), b.skip(i)),
    decreases i,
{
    if i > 0 {
        assert(a.subrange(0, i)[0] == a[0]);
        assert(b.subrange(0, i)[0] == b[0]);
        assert(a.skip(1).subrange(0, i - 1) =~= b.skip(1).subrange(0, i - 1)) by {
            assert forall|j: int| 0 <= j < i - 1 implies #[trigger] a.skip(1).subrange(0, i - 1)[j]
                == b.skip(1).subrange(0, i - 1)[j] by {
                assert(a.skip(1).subrange(0, i - 1)[j] == a.skip(1)[j]);
                assert(a.skip(1)[j] == a[j + 1]);
                assert(b.skip(1).subrange(0, i - 1)[j] == b.skip(1)[j]);
                assert(b.skip(1)[j] == b[j + 1]);
                assert(a.subrange(0, i)[j + 1] == a[j + 1]);
                assert(b.subrange(0, i)[j + 1] == b[j + 1]);
                assert(a.subrange(0, i)[j + 1] == b.subrange(0, i)[j + 1]);
            }
        }
        lemma_lex_le_common_prefix(a.skip(1), b.skip(1), i - 1);
        assert(a.skip(1).skip(i - 1) =~= a.skip(i));
        assert(b.skip(1).skip(i - 1) =~= b.skip(i));
        assert(a[0] == b[0]);
        assert(lex_le(a, b) == lex_le(a.skip(1), b.skip(1)));
        assert(lex_le(a.skip(1), b.skip(1)) == lex_le(a.skip(1).skip(i - 1), b.skip(1).skip(i - 1)));
        assert(lex_le(a.skip(i), b.skip(i)) == lex_le(a.skip(1).skip(i - 1), b.skip(1).skip(i - 1)));
    } else {
        assert(a.skip(0) =~= a);
        assert(b.skip(0) =~= b);
    }
}

/// Decides `lex_le(a@, b@)`.
pub fn str_lex_le(a: &str, b: &str) -> (r: bool)
    ensures
        r == lex_le(a@, b@),
{
    let alen = a.unicode_len();
    let blen = b.unicode_len();
    let mut i: usize = 0;
    loop
        invariant
            0 <= i <= alen,
            i <= blen,
            alen == a@.len(),
            blen == b@.len(),
            a@.subrange(0, i as int) == b@.subrange(0, i as int),
        decreases alen - i,
    {
        proof {
            lemma_lex_le_common_prefix(a@, b@, i as int);
        }
        if i == alen {
            assert(a@.skip(i as int).len() == 0);
            return true;
        }
        if i == blen {
            assert(b@.skip(i as int).len() == 0);
            assert(a@.skip(i as int).len() != 0);
            return false;
        }
        let ca = a.get_char(i);
        let cb = b.get_char(i);
        assert(a@.skip(i as int)[0] == a@[i as int]);
        assert(b@.skip(i as int)[0] == b@[i as int]);
        if ca != cb {
            return (ca as u32) < (cb as u32);
        }
        proof {
            assert(a@.subrange(0, i + 1) =~= b@.subrange(0, i + 1));
        }
        i = i + 1;
    }
}

/// Whether the two sequences are equal; decided character by character.
pub fn str_eq(a: &str, b: &str) -> (r: bool)
    ensures
        r == (a@ == b@),
{
    let alen = a.unicode_len();
    let blen = b.unicode_len();
    if alen != blen {
        return false;
    }
    let mut i: usize = 0;
    while i < alen
        invariant
            0 <= i <= alen,
            alen == a@.len() == b@.len(),
            a@.subrange(0, i as int) == b@.subrange(0, i as int),
        decreases alen - i,
    {
        let ca = a.get_char(i);
        let cb = b.get_char(i);
        if ca != cb {
            assert(a@.subrange(0, alen as int)[i as int] != b@.subrange(0, alen as int)[i as int]);
            return false;
        }
        proof {
            assert(a@.subrange(0, i + 1) =~= b@.subrange(0, i + 1));
        }
        i = i + 1;
    }
    proof {
        assert(a@ =~= a@.subrange(0, alen as int));
        assert(b@ =~= b@.subrange(0, alen as int));
    }
    true
}

/// Whether `p` is a prefix of `s`.
pub open spec fn has_prefix(s: Seq<char>, p: Seq<char>) -> bool {
    p.len() <= s.len() && s.subrange(0, p.len() as int) == p
}

pub fn str_has_prefix(s: &str, p: &str) -> (r: bool)
    ensures
        r == has_prefix(s@, p@),
{
    let slen = s.unicode_len();
    let plen = p.unicode_len();
    if plen > slen {
        assert(!has_prefix(s@, p@));
        return false;
    }
    let mut i: usize = 0;
    while i < plen
        invariant
            0 <= i <= plen <= slen,
            slen == s@.len(),
            plen == p@.len(),
            s@.subrange(0, i as int) == p@.subrange(0, i as int),
        decreases plen - i,
    {
        let cs = s.get_char(i);
        let cp = p.get_char(i);
        if cs != cp {
            assert(s@.subrange(0, plen as int)[i as int] == s@[i as int]);
            assert(p@.subrange(0, plen as int) =~= p@);
            return false;
        }
        proof {
            assert(s@.subrange(0, i + 1) =~= p@.subrange(0, i + 1));
        }
        i = i + 1;
    }
    proof {
        assert(p@.subrange(0, plen as int) =~= p@);
    }
    true
}

/// Whether `s` contains the two-character parent-reference sequence `..`.
pub open spec fn has_dotdot(s: Seq<char>) -> bool {
    exists|i: int| 0 <= i && i + 2 <= s.len() && #[trigger] s[i] == '.' && s[i + 1] == '.'
}

/// Decides whether `..` occurs anywhere in `s`.
pub fn str_has_dotdot(s: &str) -> (r: bool)
    ensures
        r == has_dotdot(s@),
{
    let len = s.unicode_len();
    if len < 2 {
        return false;
    }
    let mut i: usize = 0;
    let mut prev = s.get_char(0);
    while i + 1 < len
        invariant
            0 <= i,
            i + 1 <= len,
            len == s@.len(),
            2 <= len,
            prev == s@[i as int],
            forall|j: int| 0 <= j < i ==> !(#[trigger] s@[j] == '.' && s@[j + 1] == '.'),
        decreases len - i,
    {
        let cur = s.get_char(i + 1);
        if prev == '.' && cur == '.' {
            assert(has_dotdot(s@));
            return true;
        }
        prev = cur;
        i = i + 1;
    }
    assert(forall|j: int| 0 <= j && j + 2 <= s@.len() ==> !(#[trigger] s@[j] == '.' && s@[j + 1] == '.'));
    false
}

/// The index just past the last occurrence of `c` in `s`: 0 when `c` does not
/// occur.
pub open spec fn after_last(s: Seq<char>, c: char) -> int
    decreases s.len(),
{
    if s.len() == 0 {
        0
    } else if s[s.len() - 1] == c {
        s.len() as int
    } else {
        after_last(s.drop_last(), c)
    }
}

pub proof fn lemma_after_last_bounds(s: Seq<char>, c: char)
    ensures
        0 <= after_last(s, c) <= s.len(),
        forall|j: int| after_last(s, c) <= j < s.len() ==> s[j] != c,
        after_last(s, c) > 0 ==> s[after_last(s, c) - 1] == c,
    decreases s.len(),
{
    if s.len() > 0 && s[s.len() - 1] != c {
        lemma_after_last_bounds(s.drop_last(), c);
        assert(forall|j: int| 0 <= j < s.len() - 1 ==> s.drop_last()[j] == s[j]);
    }
}

/// Returns `after_last(s@, c)`.
pub fn str_after_last(s: &str, c: char) -> (r: usize)
    ensures
        r == after_last(s@, c),
        r <= s@.len(),
{
    let len = s.unicode_len();
    let mut cut: usize = 0;
    let mut i: usize = 0;
    while i < len
        invariant
            0 <= i <= len,
            len == s@.len(),
            cut == after_last(s@.subrange(0, i as int), c),
            cut <= i,
        decreases len - i,
    {
        let cc = s.get_char(i);
        proof {
            assert(s@.subrange(0, i + 1).drop_last() =~= s@.subrange(0, i as int));
            assert(s@.subrange(0, i + 1)[i as int] == s@[i as int]);
        }
        if cc == c {
            cut = i + 1;
        }
        i = i + 1;
    }
    proof {
        assert(s@.subrange(0, len as int) =~= s@);
    }
    cut
}

/// The final path segment of `s`: everything after the last `/`.
pub open spec fn last_segment(s: Seq<char>) -> Seq<char> {
    s.subrange(after_last(s, '/'), s.len() as int)
}

/// Returns the final path segment of `s`.
pub fn str_last_segment(s: &str) -> (r: String)
    ensures
        r@ == last_segment(s@),
{
    let len = s.unicode_len();
    let cut = str_after_last(s, '/');
    let seg = s.substring_char(cut, len);
    seg.to_owned()
}

/// `s` without its trailing run of `c` characters.
pub open spec fn without_trailing(s: Seq<char>, c: char) -> Seq<char>
    decreases s.len(),
{
    if s.len() > 0 && s[s.len() - 1] == c {
        without_trailing(s.drop_last(), c)
    } else {
        s
    }
}

/// Returns `without_trailing(s@, c)`.
pub fn str_without_trailing(s: &str, c: char) -> (r: String)
    ensures
        r@ == without_trailing(s@, c),
{
    let mut end = s.unicode_len();
    proof {
        assert(s@.subrange(0, s@.len() as int) =~= s@);
    }
    while end > 0 && s.get_char(end - 1) == c
        invariant
            0 <= end <= s@.len(),
            without_trailing(s@.subrange(0, end as int), c) == without_trailing(s@, c),
        decreases end,
    {
        proof {
            assert(s@.subrange(0, end as int).drop_last() =~= s@.subrange(0, end - 1));
            assert(s@.subrange(0, end as int)[end - 1] == s@[end - 1]);
        }
        end = end - 1;
    }
    proof {
        if end > 0 {
            assert(s@.subrange(0, end as int)[end - 1] == s@[end - 1]);
        }
        assert(without_trailing(s@.subrange(0, end as int), c) == s@.subrange(0, end as int));
    }
    let r = s.substring_char(0, end);
    r.to_owned()
}

} // verus!
