//! Text utilities shared by the parsers: decimal digit strings, splitting
//! on a separator, and turning numbers into text.

use vstd::prelude::*;

verus! {

/// A decimal digit.
pub open spec fn is_dec_digit(c: char) -> bool {
    '0' <= c && c <= '9'
}

/// The value of a decimal digit.
pub open spec fn dec_digit_val(c: char) -> nat {
    (c as int - '0' as int) as nat
}

/// Every character of the sequence is a decimal digit.
pub open spec fn all_dec_digits(s: Seq<char>) -> bool {
    forall|i: int| 0 <= i < s.len() ==> is_dec_digit(s[i])
}

/// The number denoted by a digit sequence, most significant first.
pub open spec fn dec_val(s: Seq<char>) -> nat
    decreases s.len(),
{
    if s.len() == 0 {
        0
    } else {
        dec_val(s.drop_last()) * 10 + dec_digit_val(s.last())
    }
}

/// Longer digit prefixes denote numbers at least as large.
pub proof fn lemma_dec_val_prefix_le(s: Seq<char>, i: int, j: int)
    requires
        0 <= i <= j <= s.len(),
    ensures
        dec_val(s.take(i)) <= dec_val(s.take(j)),
    decreases j - i,
{
    if i < j {
        lemma_dec_val_prefix_le(s, i, j - 1);
        assert(s.take(j).drop_last() =~= s.take(j - 1));
        assert(dec_val(s.take(j)) == dec_val(s.take(j - 1)) * 10 + dec_digit_val(
            s.take(j).last(),
        ));
        assert(dec_val(s.take(j - 1)) * 10 >= dec_val(s.take(j - 1))) by (nonlinear_arith);
    }
}

/// The digit string denotes a port number as the standard library reads
/// one: an optional leading plus sign, then at least one digit, with a
/// value that fits in sixteen bits.
pub open spec fn is_u16_str(s: Seq<char>) -> bool {
    let t = if s.len() > 0 && s[0] == '+' {
        s.skip(1)
    } else {
        s
    };
    t.len() > 0 && all_dec_digits(t) && dec_val(t) <= 65535
}

/// The port number a digit string denotes.
pub open spec fn u16_str_val(s: Seq<char>) -> nat {
    let t = if s.len() > 0 && s[0] == '+' {
        s.skip(1)
    } else {
        s
    };
    dec_val(t)
}

/// Read a sequence of digits as a number, refusing any sequence whose
/// value does not fit in sixteen bits.
fn parse_dec_u16(t: &Vec<char>) -> (r: Option<u16>)
    ensures
        r is Some <==> t@.len() > 0 && all_dec_digits(t@) && dec_val(t@) <= 65535,
        r is Some ==> r->Some_0 as nat == dec_val(t@),
{
    if t.len() == 0 {
        return None;
    }
    let n = t.len();
    let mut acc: u32 = 0;
    let mut i: usize = 0;
    while i < n
        invariant
            0 <= i <= n,
            n == t@.len(),
            all_dec_digits(t@.take(i as int)),
            acc as nat == dec_val(t@.take(i as int)),
            acc <= 65535,
        decreases n - i,
    {
        let c = t[i];
        if c < '0' || c > '9' {
            proof {
                assert(!is_dec_digit(t@[i as int]));
            }
            return None;
        }
        let d: u32 = c as u32 - 48;
        proof {
            assert(t@.take(i + 1).drop_last() =~= t@.take(i as int));
            assert(t@.take(i + 1).last() == t@[i as int]);
        }
        acc = acc * 10 + d;
        if acc > 65535 {
            proof {
                lemma_dec_val_prefix_le(t@, i + 1, n as int);
                assert(t@.take(n as int) =~= t@);
            }
            return None;
        }
        i = i + 1;
    }
    proof {
        assert(t@.take(n as int) =~= t@);
    }
    Some(acc as u16)
}

/// Read a port number the way the standard library does: an optional
/// leading plus sign, then decimal digits whose value fits in sixteen
/// bits.
pub fn parse_u16_str(s: &Vec<char>) -> (r: Option<u16>)
    ensures
        r is Some <==> is_u16_str(s@),
        r is Some ==> r->Some_0 as nat == u16_str_val(s@),
{
    if s.len() > 0 && s[0] == '+' {
        let mut t: Vec<char> = Vec::new();
        let n = s.len();
        let mut i: usize = 1;
        while i < n
            invariant
                1 <= i <= n,
                n == s@.len(),
                t@ =~= s@.subrange(1, i as int),
            decreases n - i,
        {
            t.push(s[i]);
            i = i + 1;
        }
        proof {
            assert(t@ =~= s@.skip(1));
        }
        parse_dec_u16(&t)
    } else {
        parse_dec_u16(s)
    }
}

/// The parts of a sequence between occurrences of a separator. There is
/// always at least one part; a separator at either edge or two adjacent
/// separators yield empty parts.
pub open spec fn split_on(s: Seq<char>, sep: char) -> Seq<Seq<char>>
    decreases s.len(),
{
    if s.len() == 0 {
        seq![Seq::<char>::empty()]
    } else {
        let rest = split_on(s.skip(1), sep);
        if s[0] == sep {
            seq![Seq::<char>::empty()] + rest
        } else {
            seq![seq![s[0]] + rest[0]] + rest.skip(1)
        }
    }
}

/// A split always has at least one part.
pub proof fn lemma_split_on_len(s: Seq<char>, sep: char)
    ensures
        split_on(s, sep).len() >= 1,
    decreases s.len(),
{
    if s.len() > 0 {
        lemma_split_on_len(s.skip(1), sep);
    }
}

/// The characters of a string, in order.
pub fn chars_of(s: &str) -> (r: Vec<char>)
    ensures
        r@ == s@,
{
    let n = s.unicode_len();
    let mut v: Vec<char> = Vec::new();
    let mut i: usize = 0;
    while i < n
        invariant
            0 <= i <= n,
            n == s@.len(),
            v@ =~= s@.take(i as int),
        decreases n - i,
    {
        v.push(s.get_char(i));
        i = i + 1;
    }
    proof {
        assert(v@ =~= s@);
    }
    v
}

/// Split a character sequence on a separator, walking backwards so that
/// each step matches one unfolding of `split_on`.
pub fn split_chars(s: &Vec<char>, sep: char) -> (r: Vec<Vec<char>>)
    ensures
        r.deep_view() == split_on(s@, sep),
        r@.len() >= 1,
{
    let mut parts: Vec<Vec<char>> = Vec::new();
    parts.push(Vec::new());
    let mut i: usize = s.len();
    proof {
        assert(s@.skip(i as int) =~= Seq::<char>::empty());
        assert(parts.deep_view() =~~= split_on(s@.skip(i as int), sep));
    }
    while i > 0
        invariant
            0 <= i <= s@.len(),
            parts.deep_view() == split_on(s@.skip(i as int), sep),
            parts@.len() >= 1,
        decreases i,
    {
        let c = s[i - 1];
        proof {
            assert(s@.skip(i - 1)[0] == s@[i - 1]);
            assert(s@.skip(i - 1).skip(1) =~= s@.skip(i as int));
        }
        if c == sep {
            parts.insert(0, Vec::new());
            proof {
                assert(parts.deep_view() =~~= split_on(s@.skip(i - 1), sep));
            }
        } else {
            let mut head: Vec<char> = Vec::new();
            head.push(c);
            let old_head = parts.remove(0);
            let ghost c0 = s@[i - 1];
            let mut j: usize = 0;
            let n0 = old_head.len();
            while j < n0
                invariant
                    0 <= j <= n0,
                    n0 == old_head@.len(),
                    head@ =~= seq![c0] + old_head@.take(j as int),
                decreases n0 - j,
            {
                head.push(old_head[j]);
                j = j + 1;
            }
            parts.insert(0, head);
            proof {
                assert(old_head@.take(n0 as int) =~= old_head@);
                assert(head@ =~= seq![s@[i - 1]] + old_head@);
                assert(head.deep_view() =~~= seq![s@[i - 1]] + old_head.deep_view());
                assert(parts.deep_view() =~~= split_on(s@.skip(i - 1), sep));
            }
        }
        i = i - 1;
    }
    proof {
        assert(s@.skip(0) =~= s@);
    }
    parts
}

/// Relies on String::push: appends one character at the end.
pub assume_specification[ String::push ](s: &mut String, c: char)
    ensures
        final(s)@ == old(s)@.push(c),
;

/// The character of one decimal digit.
pub open spec fn dec_digit_char(d: nat) -> char {
    ((d + 48) as u8) as char
}

/// The decimal text of a number, most significant digit first, with no
/// leading zeros (zero itself is "0").
pub open spec fn dec_str_of(n: nat) -> Seq<char>
    decreases n,
{
    if n < 10 {
        seq![dec_digit_char(n)]
    } else {
        dec_str_of(n / 10).push(dec_digit_char(n % 10))
    }
}

/// Append the decimal text of a number.
pub fn push_dec_u128(n: u128, out: &mut String)
    ensures
        final(out)@ == old(out)@ + dec_str_of(n as nat),
    decreases n,
{
    if n < 10 {
        out.push((48 + n as u8) as char);
        proof {
            assert(final(out)@ =~= old(out)@ + dec_str_of(n as nat));
        }
    } else {
        let ghost pre = out@;
        push_dec_u128(n / 10, out);
        out.push((48 + (n % 10) as u8) as char);
        proof {
            assert(final(out)@ =~= pre + dec_str_of(n as nat));
        }
    }
}

/// The decimal text of a number.
pub fn dec_string(n: u128) -> (r: String)
    ensures
        r@ == dec_str_of(n as nat),
{
    let mut out = String::new();
    push_dec_u128(n, &mut out);
    proof {
        assert(out@ =~= dec_str_of(n as nat));
    }
    out
}

/// The characters as a string.
pub fn string_of_chars(v: &Vec<char>) -> (r: String)
    ensures
        r@ == v@,
{
    let mut out = String::new();
    let n = v.len();
    let mut i: usize = 0;
    while i < n
        invariant
            0 <= i <= n,
            n == v@.len(),
            out@ == v@.take(i as int),
        decreases n - i,
    {
        proof {
            assert(v@.take(i as int).push(v@[i as int]) =~= v@.take(i + 1));
        }
        out.push(v[i]);
        i = i + 1;
    }
    proof {
        assert(out@ =~= v@);
    }
    out
}

/// A run of spaces.
pub open spec fn spaces(n: nat) -> Seq<char> {
    Seq::new(n, |i: int| ' ')
}

/// The text padded with spaces on the right up to the width; longer
/// text stays as it is.
pub open spec fn spec_pad_right(s: Seq<char>, w: nat) -> Seq<char> {
    if s.len() >= w {
        s
    } else {
        s + spaces((w - s.len()) as nat)
    }
}

/// Pad with spaces on the right up to the width.
pub fn pad_right(s: String, w: usize) -> (r: String)
    ensures
        r@ == spec_pad_right(s@, w as nat),
{
    let mut r = s;
    let mut l = r.as_str().unicode_len();
    let ghost base = r@;
    proof {
        assert(r@ =~= base + spaces(0));
    }
    while l < w
        invariant
            l == r@.len(),
            base.len() <= r@.len(),
            base.len() >= w ==> r@.len() == base.len(),
            base.len() < w ==> r@.len() <= w,
            r@ == base + spaces((r@.len() - base.len()) as nat),
        decreases w - l,
    {
        r.push(' ');
        l = l + 1;
        proof {
            assert(r@ =~= base + spaces((r@.len() - base.len()) as nat));
        }
    }
    proof {
        if base.len() >= w {
            assert(r@ =~= base);
        }
        assert(r@ =~= spec_pad_right(base, w as nat));
    }
    r
}

/// Whether `needle` occurs in `hay` as a contiguous run.
pub open spec fn spec_contains_seq(hay: Seq<char>, needle: Seq<char>) -> bool {
    exists|i: int|
        0 <= i && i + needle.len() <= hay.len() && #[trigger] hay.subrange(i, i + needle.len())
            == needle
}

/// Whether the characters starting at `at` match the needle.
pub fn match_at(hay: &Vec<char>, needle: &Vec<char>, at: usize) -> (r: bool)
    requires
        at + needle@.len() <= hay@.len(),
    ensures
        r == (hay@.subrange(at as int, at + needle@.len()) == needle@),
{
    let m = needle.len();
    let hl = hay.len();
    let mut j: usize = 0;
    while j < m
        invariant
            0 <= j <= m,
            m == needle@.len(),
            hl == hay@.len(),
            at + m <= hl,
            forall|t: int| 0 <= t < j ==> hay@[at + t] == needle@[t],
        decreases m - j,
    {
        if hay[at + j] != needle[j] {
            proof {
                assert(hay@.subrange(at as int, at + needle@.len())[j as int] == hay@[at + j]);
            }
            return false;
        }
        j = j + 1;
    }
    proof {
        assert(hay@.subrange(at as int, at + needle@.len()) =~= needle@);
    }
    true
}

/// Whether `needle` occurs anywhere in `hay`.
pub fn contains_seq(hay: &Vec<char>, needle: &Vec<char>) -> (r: bool)
    ensures
        r == spec_contains_seq(hay@, needle@),
{
    if needle.len() == 0 {
        proof {
            assert(hay@.subrange(0, 0 + needle@.len() as int) =~= needle@);
        }
        return true;
    }
    if needle.len() > hay.len() {
        return false;
    }
    let hl = hay.len();
    let last = hl - needle.len();
    let mut i: usize = 0;
    while i <= last
        invariant
            0 <= i <= last + 1,
            needle@.len() >= 1,
            hl == hay@.len(),
            last + needle@.len() == hay@.len(),
            forall|t: int|
                0 <= t < i ==> #[trigger] hay@.subrange(t, t + needle@.len()) != needle@,
        decreases last - i + 1,
    {
        if match_at(hay, needle, i) {
            return true;
        }
        i = i + 1;
    }
    false
}

} // verus!
