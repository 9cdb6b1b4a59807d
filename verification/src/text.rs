//! Text helpers: equality of string slices, decimal numbers, trimming.

use vstd::prelude::*;
use vstd::string::*;
use vstd::utf8::*;

verus! {

/// Whether two string slices hold the same characters.
pub fn str_eq(a: &str, b: &str) -> (r: bool)
    ensures
        r == (a@ == b@),
{
    let x: &[u8] = a.as_bytes();
    let y: &[u8] = b.as_bytes();
    if x.len() != y.len() {
        return false;
    }
    let n: usize = x.len();
    let mut i: usize = 0;
    while i < n
        invariant
            i <= n,
            n == x@.len(),
            n == y@.len(),
            x@ == a.spec_bytes(),
            y@ == b.spec_bytes(),
            forall|k: int| 0 <= k < i ==> x@[k] == y@[k],
        decreases n - i,
    {
        if x[i] != y[i] {
            return false;
        }
        i += 1;
    }
    proof {
        assert(x@ =~= y@);
        encode_utf8_decode_utf8(a@);
        encode_utf8_decode_utf8(b@);
    }
    true
}

/// The character of a decimal digit.
pub open spec fn digit_char(d: nat) -> char {
    if d == 0 {
        '0'
    } else if d == 1 {
        '1'
    } else if d == 2 {
        '2'
    } else if d == 3 {
        '3'
    } else if d == 4 {
        '4'
    } else if d == 5 {
        '5'
    } else if d == 6 {
        '6'
    } else if d == 7 {
        '7'
    } else if d == 8 {
        '8'
    } else {
        '9'
    }
}

/// A number in decimal, without leading zeros.
pub open spec fn decimal(n: nat) -> Seq<char>
    decreases n,
{
    if n < 10 {
        seq![digit_char(n)]
    } else {
        decimal(n / 10).push(digit_char(n % 10))
    }
}

/// A number in decimal, padded with zeros on the left to `width` characters.
pub open spec fn decimal_padded(n: nat, width: nat) -> Seq<char> {
    if decimal(n).len() >= width {
        decimal(n)
    } else {
        Seq::new((width - decimal(n).len()) as nat, |i: int| '0') + decimal(n)
    }
}

fn append_digit(out: &mut String, d: u64)
    requires
        d < 10,
    ensures
        final(out)@ == old(out)@.push(digit_char(d as nat)),
{
    let s: &str = if d == 0 {
        "0"
    } else if d == 1 {
        "1"
    } else if d == 2 {
        "2"
    } else if d == 3 {
        "3"
    } else if d == 4 {
        "4"
    } else if d == 5 {
        "5"
    } else if d == 6 {
        "6"
    } else if d == 7 {
        "7"
    } else if d == 8 {
        "8"
    } else {
        "9"
    };
    proof {
        reveal_strlit("0");
        reveal_strlit("1");
        reveal_strlit("2");
        reveal_strlit("3");
        reveal_strlit("4");
        reveal_strlit("5");
        reveal_strlit("6");
        reveal_strlit("7");
        reveal_strlit("8");
        reveal_strlit("9");
        assert(s@ =~= seq![digit_char(d as nat)]);
    }
    let ghost before = out@;
    out.append(s);
    proof {
        assert(out@ =~= before.push(digit_char(d as nat)));
    }
}

/// Appends `n` in decimal.
pub fn append_decimal(out: &mut String, n: u64)
    ensures
        final(out)@ == old(out)@ + decimal(n as nat),
    decreases n,
{
    let ghost before = out@;
    if n < 10 {
        append_digit(out, n);
        proof {
            assert(out@ =~= before + decimal(n as nat));
        }
    } else {
        append_decimal(out, n / 10);
        append_digit(out, n % 10);
        proof {
            assert(out@ =~= before + decimal(n as nat));
        }
    }
}

fn decimal_len(n: u64) -> (r: usize)
    ensures
        r as nat == decimal(n as nat).len(),
        1 <= r <= 20,
{
    let mut r: usize = 1;
    let mut m: u64 = n;
    proof {
        assert(decimal(n as nat).len() == decimal(m as nat).len() + (r - 1));
    }
    while m >= 10
        invariant
            decimal(n as nat).len() == decimal(m as nat).len() + (r - 1),
            1 <= r <= 20,
            r == 1 ==> m <= 0xffff_ffff_ffff_ffff,
            r == 2 ==> m <= 1844674407370955161,
            r == 3 ==> m <= 184467440737095516,
            r == 4 ==> m <= 18446744073709551,
            r == 5 ==> m <= 1844674407370955,
            r == 6 ==> m <= 184467440737095,
            r == 7 ==> m <= 18446744073709,
            r == 8 ==> m <= 1844674407370,
            r == 9 ==> m <= 184467440737,
            r == 10 ==> m <= 18446744073,
            r == 11 ==> m <= 1844674407,
            r == 12 ==> m <= 184467440,
            r == 13 ==> m <= 18446744,
            r == 14 ==> m <= 1844674,
            r == 15 ==> m <= 184467,
            r == 16 ==> m <= 18446,
            r == 17 ==> m <= 1844,
            r == 18 ==> m <= 184,
            r == 19 ==> m <= 18,
            r == 20 ==> m <= 1,
        decreases m,
    {
        m = m / 10;
        r += 1;
    }
    r
}

/// Appends `n` in decimal, padded with zeros on the left to `width` characters.
pub fn append_decimal_padded(out: &mut String, n: u64, width: usize)
    ensures
        final(out)@ == old(out)@ + decimal_padded(n as nat, width as nat),
{
    let ghost before = out@;
    let len: usize = decimal_len(n);
    let mut i: usize = len;
    while i < width
        invariant
            len <= i,
            i <= width || i == len,
            out@ == before + Seq::new((i - len) as nat, |k: int| '0'),
        decreases width - i,
    {
        append_digit(out, 0);
        i += 1;
        proof {
            assert(out@ =~= before + Seq::new((i - len) as nat, |k: int| '0'));
        }
    }
    append_decimal(out, n);
    proof {
        assert(out@ =~= before + decimal_padded(n as nat, width as nat));
    }
}

/// The white space of the Unicode character database (`White_Space`).
pub open spec fn is_white_space(c: char) -> bool {
    let u = c as u32;
    ||| 0x9 <= u <= 0xd
    ||| u == 0x20
    ||| u == 0x85
    ||| u == 0xa0
    ||| u == 0x1680
    ||| 0x2000 <= u <= 0x200a
    ||| u == 0x2028
    ||| u == 0x2029
    ||| u == 0x202f
    ||| u == 0x205f
    ||| u == 0x3000
}

fn white_space(c: char) -> (r: bool)
    ensures
        r == is_white_space(c),
{
    let u: u32 = c as u32;
    (0x9 <= u && u <= 0xd) || u == 0x20 || u == 0x85 || u == 0xa0 || u == 0x1680 || (0x2000 <= u
        && u <= 0x200a) || u == 0x2028 || u == 0x2029 || u == 0x202f || u == 0x205f || u == 0x3000
}

/// Text without the white space at its start.
pub open spec fn trim_start(s: Seq<char>) -> Seq<char>
    decreases s.len(),
{
    if s.len() > 0 && is_white_space(s[0]) {
        trim_start(s.drop_first())
    } else {
        s
    }
}

/// Text without the white space at its end.
pub open spec fn trim_end(s: Seq<char>) -> Seq<char>
    decreases s.len(),
{
    if s.len() > 0 && is_white_space(s.last()) {
        trim_end(s.drop_last())
    } else {
        s
    }
}

/// Text without the white space at either end.
pub open spec fn trimmed(s: Seq<char>) -> Seq<char> {
    trim_end(trim_start(s))
}

/// The characters of a string slice.
pub fn chars_of(s: &str) -> (r: Vec<char>)
    ensures
        r@ == s@,
{
    let mut out: Vec<char> = Vec::new();
    for c in it: s.chars()
        invariant
            it.seq() == s@,
            out@ == s@.take(it.index() as int),
    {
        out.push(c);
        proof {
            assert(s@.take(it.index() as int + 1) =~= s@.take(it.index() as int).push(c));
        }
    }
    proof {
        assert(s@.take(s@.len() as int) =~= s@);
    }
    out
}

/// The characters of a string slice without the white space at either end.
pub fn trim_chars(s: &str) -> (r: Vec<char>)
    ensures
        r@ == trimmed(s@),
{
    let all: Vec<char> = chars_of(s);
    let mut lo: usize = 0;
    proof {
        assert(all@.skip(0) =~= all@);
    }
    while lo < all.len() && white_space(all[lo])
        invariant
            lo <= all@.len(),
            trim_start(all@) == trim_start(all@.skip(lo as int)),
        decreases all@.len() - lo,
    {
        proof {
            assert(all@.skip(lo as int).drop_first() =~= all@.skip(lo as int + 1));
        }
        lo += 1;
    }
    let mut hi: usize = all.len();
    proof {
        assert(trim_start(all@) == all@.skip(lo as int));
        assert(all@.subrange(lo as int, hi as int) =~= all@.skip(lo as int));
    }
    while hi > lo && white_space(all[hi - 1])
        invariant
            lo <= hi <= all@.len(),
            trim_start(all@) == all@.skip(lo as int),
            trim_end(all@.skip(lo as int)) == trim_end(all@.subrange(lo as int, hi as int)),
        decreases hi,
    {
        proof {
            assert(all@.subrange(lo as int, hi as int).drop_last() =~= all@.subrange(
                lo as int,
                hi - 1,
            ));
        }
        hi -= 1;
    }
    let mut out: Vec<char> = Vec::new();
    let mut i: usize = lo;
    while i < hi
        invariant
            lo <= i <= hi <= all@.len(),
            out@ == all@.subrange(lo as int, i as int),
        decreases hi - i,
    {
        out.push(all[i]);
        proof {
            assert(all@.subrange(lo as int, i + 1) =~= all@.subrange(lo as int, i as int).push(
                all@[i as int],
            ));
        }
        i += 1;
    }
    out
}

/// A padded number is as wide as was asked for, or as the number itself where that
/// is wider; it ends with the number, and before that it holds nothing but zeros.
pub proof fn a_padded_number_is_filled_with_zeros(n: nat, width: nat)
    ensures
        ({
            let p = decimal_padded(n, width);
            let d = decimal(n);
            &&& p.len() == (if d.len() < width {
                width
            } else {
                d.len()
            })
            &&& p.skip(p.len() - d.len()) == d
            &&& forall|i: int| 0 <= i < p.len() - d.len() ==> #[trigger] p[i] == '0'
        }),
{
    let p = decimal_padded(n, width);
    assert(p.skip(p.len() - decimal(n).len()) =~= decimal(n));
}

/// A number in decimal has no leading zero, unless it is zero itself, and its last
/// digit is its remainder by ten.
pub proof fn a_decimal_number_has_no_leading_zero(n: nat)
    ensures
        decimal(n).len() > 0,
        n > 0 ==> decimal(n)[0] != '0',
        decimal(n).last() as u32 == 48 + n % 10,
        n >= 10 ==> decimal(n).drop_last() == decimal(n / 10),
        n < 10 ==> decimal(n).len() == 1,
    decreases n,
{
    if n >= 10 {
        a_decimal_number_has_no_leading_zero(n / 10);
        assert(decimal(n).drop_last() =~= decimal(n / 10));
        assert(decimal(n)[0] == decimal(n / 10)[0]);
    }
}

/// Trimming takes white space off both ends and nothing else, until there is none
/// left there.
pub proof fn trimming_takes_off_white_space_alone(s: Seq<char>) -> (at: (int, int))
    ensures
        0 <= at.0 <= at.1 <= s.len(),
        trimmed(s) == s.subrange(at.0, at.1),
        forall|i: int| 0 <= i < at.0 ==> is_white_space(#[trigger] s[i]),
        forall|i: int| at.1 <= i < s.len() ==> is_white_space(#[trigger] s[i]),
        trimmed(s).len() > 0 ==> !is_white_space(trimmed(s)[0]) && !is_white_space(trimmed(s).last()),
{
    let lo = lemma_start(s);
    let t = trim_start(s);
    let hi = lemma_end(t);
    assert(trimmed(s) =~= s.subrange(lo, lo + hi));
    assert forall|i: int| lo + hi <= i < s.len() implies is_white_space(#[trigger] s[i]) by {
        assert(t[i - lo] == s[i]);
    }
    if trimmed(s).len() > 0 {
        assert(trimmed(s)[0] == t[0]);
    }
    (lo, lo + hi)
}

proof fn lemma_start(s: Seq<char>) -> (lo: int)
    ensures
        0 <= lo <= s.len(),
        trim_start(s) == s.skip(lo),
        forall|i: int| 0 <= i < lo ==> is_white_space(#[trigger] s[i]),
        lo < s.len() ==> !is_white_space(s[lo]),
    decreases s.len(),
{
    if s.len() > 0 && is_white_space(s[0]) {
        let rest = s.drop_first();
        let lo = lemma_start(rest);
        assert(rest.skip(lo) =~= s.skip(lo + 1));
        assert forall|i: int| 0 <= i < lo + 1 implies is_white_space(#[trigger] s[i]) by {
            if i > 0 {
                assert(rest[i - 1] == s[i]);
            }
        }
        if lo + 1 < s.len() {
            assert(rest[lo] == s[lo + 1]);
        }
        lo + 1
    } else {
        assert(s.skip(0) =~= s);
        0
    }
}

proof fn lemma_end(s: Seq<char>) -> (hi: int)
    ensures
        0 <= hi <= s.len(),
        trim_end(s) == s.take(hi),
        forall|i: int| hi <= i < s.len() ==> is_white_space(#[trigger] s[i]),
        hi > 0 ==> !is_white_space(s[hi - 1]),
    decreases s.len(),
{
    if s.len() > 0 && is_white_space(s.last()) {
        let front = s.drop_last();
        let hi = lemma_end(front);
        assert(front.take(hi) =~= s.take(hi));
        assert forall|i: int| hi <= i < s.len() implies is_white_space(#[trigger] s[i]) by {
            if i < front.len() {
                assert(front[i] == s[i]);
            }
        }
        if hi > 0 {
            assert(front[hi - 1] == s[hi - 1]);
        }
        hi
    } else {
        assert(s.take(s.len() as int) =~= s);
        s.len() as int
    }
}

} // verus!
