//! The client's options.

use crate::text::{decimal, digit_char, is_white_space, trim_chars, trim_end, trim_start, trimmed};
use vstd::prelude::*;
use vstd::string::*;

verus! {

/// Which host drives the renderer.
#[derive(Copy, Clone, Debug, PartialEq, Eq, Structural)]
pub enum Backend {
    Local,
    Remote,
    Cluster,
}

/// Performance preset: `Balanced` keeps every motion-aware strategy, `Quality`
/// replaces them by static ones.
#[derive(Copy, Clone, Debug, PartialEq, Eq, Structural)]
pub enum PerfPreset {
    Balanced,
    Quality,
}

/// Shading path; `Default` keeps the configured one.
#[derive(Copy, Clone, Debug, PartialEq, Eq, Structural)]
pub enum ShadingArg {
    Default,
    Mesh,
    Palette,
    Raymarch,
}

/// Tier of the ray-marched shading.
#[derive(Copy, Clone, Debug, PartialEq, Eq, Structural)]
pub enum RaymarchTier {
    Unlit,
    Lambert,
    Pbr,
}

/// World-generation archetype.
#[derive(Copy, Clone, Debug, PartialEq, Eq, Structural)]
pub enum WorldGenArg {
    Default,
    Ice,
}

/// Client-side physics.
#[derive(Copy, Clone, Debug, PartialEq, Eq, Structural)]
pub enum PhysicsToggle {
    On,
    Off,
}

/// How voxels become colliders.
#[derive(Copy, Clone, Debug, PartialEq, Eq, Structural)]
pub enum ColliderArg {
    Greedy,
    PerVoxel,
}

/// The options of a run.
#[derive(Debug)]
pub struct Cli {
    pub backend: Backend,
    /// Path of the server actor, for a remote or cluster backend.
    pub connect: Option<String>,
    /// Address that the client's own remote system binds to.
    pub bind: String,
    pub seed: u64,
    /// Scenario file of a scripted run.
    pub harness: Option<String>,
    /// Directory for the screenshots of a scripted run.
    pub harness_out: Option<String>,
    pub perf: PerfPreset,
    pub shading: ShadingArg,
    pub raymarch_tier: RaymarchTier,
    pub world_gen: WorldGenArg,
    pub physics: PhysicsToggle,
    pub collider: ColliderArg,
}

impl Default for Cli {
    /// The options of a run that is given none.
    fn default() -> (r: Self)
        ensures
            r.backend is Local,
            r.connect is None,
            r.bind@ == "127.0.0.1:0"@,
            r.seed == 0xDEAD_BEEF_CAFE_F00D,
            r.harness is None,
            r.harness_out is None,
            r.perf is Balanced,
            r.shading is Default,
            r.raymarch_tier is Lambert,
            r.world_gen is Default,
            r.physics is On,
            r.collider is Greedy,
    {
        Cli {
            backend: Backend::Local,
            connect: None,
            bind: String::from_str("127.0.0.1:0"),
            seed: 0xDEAD_BEEF_CAFE_F00D,
            harness: None,
            harness_out: None,
            perf: PerfPreset::Balanced,
            shading: ShadingArg::Default,
            raymarch_tier: RaymarchTier::Lambert,
            world_gen: WorldGenArg::Default,
            physics: PhysicsToggle::On,
            collider: ColliderArg::Greedy,
        }
    }
}

/// Why a text is no number.
#[derive(Clone, Copy, Debug, PartialEq, Eq, Structural)]
pub enum NumberError {
    Empty,
    InvalidDigit,
    TooLarge,
}

/// The value of a digit in base 10 or 16.
pub open spec fn digit_value(c: char, radix: nat) -> Option<nat> {
    let u = c as u32;
    if '0' as u32 <= u <= '9' as u32 {
        Some((u - '0' as u32) as nat)
    } else if radix == 16 && 'a' as u32 <= u <= 'f' as u32 {
        Some((u - 'a' as u32 + 10) as nat)
    } else if radix == 16 && 'A' as u32 <= u <= 'F' as u32 {
        Some((u - 'A' as u32 + 10) as nat)
    } else {
        None
    }
}

/// Reads digits from the left, `acc` being the value of those before.
pub open spec fn read_digits(s: Seq<char>, radix: nat, acc: nat) -> Result<nat, NumberError>
    decreases s.len(),
{
    if s.len() == 0 {
        Ok(acc)
    } else {
        match digit_value(s[0], radix) {
            None => Err(NumberError::InvalidDigit),
            Some(d) => if acc * radix + d > u64::MAX {
                Err(NumberError::TooLarge)
            } else {
                read_digits(s.drop_first(), radix, acc * radix + d)
            },
        }
    }
}

/// The number that a text spells: at least one digit, after a plus sign if
/// there is one, with a value of at most 64 bits.
pub open spec fn number_of(s: Seq<char>, radix: nat) -> Result<nat, NumberError> {
    if s.len() == 0 {
        Err(NumberError::Empty)
    } else if s[0] == '+' {
        if s.len() == 1 {
            Err(NumberError::InvalidDigit)
        } else {
            read_digits(s.drop_first(), radix, 0)
        }
    } else {
        read_digits(s, radix, 0)
    }
}

/// A text that starts with `0x` or `0X`.
pub open spec fn has_hex_prefix(s: Seq<char>) -> bool {
    s.len() >= 2 && s[0] == '0' && (s[1] == 'x' || s[1] == 'X')
}

impl NumberError {
    pub open spec fn text(self) -> Seq<char> {
        match self {
            NumberError::Empty => "cannot parse integer from empty string"@,
            NumberError::InvalidDigit => "invalid digit found in string"@,
            NumberError::TooLarge => "number too large to fit in target type"@,
        }
    }

    pub fn message(self) -> (r: &'static str)
        ensures
            r@ == self.text(),
            self is Empty ==> r@ == "cannot parse integer from empty string"@,
            self is InvalidDigit ==> r@ == "invalid digit found in string"@,
            self is TooLarge ==> r@ == "number too large to fit in target type"@,
    {
        match self {
            NumberError::Empty => "cannot parse integer from empty string",
            NumberError::InvalidDigit => "invalid digit found in string",
            NumberError::TooLarge => "number too large to fit in target type",
        }
    }
}

fn value_of_digit(c: char, radix: u64) -> (r: Option<u64>)
    requires
        radix == 10 || radix == 16,
    ensures
        match r {
            Some(d) => digit_value(c, radix as nat) == Some(d as nat) && d < 16,
            None => digit_value(c, radix as nat) is None,
        },
{
    let u: u32 = c as u32;
    if 48 <= u && u <= 57 {
        Some((u - 48) as u64)
    } else if radix == 16 && 97 <= u && u <= 102 {
        Some((u - 87) as u64)
    } else if radix == 16 && 65 <= u && u <= 70 {
        Some((u - 55) as u64)
    } else {
        None
    }
}

/// Reads the number that `s` spells from its character `from` on.
fn read_number(s: &Vec<char>, from: usize, radix: u64) -> (r: Result<u64, NumberError>)
    requires
        radix == 10 || radix == 16,
        from <= s@.len(),
    ensures
        match r {
            Ok(v) => number_of(s@.skip(from as int), radix as nat) == Ok::<nat, NumberError>(v as nat),
            Err(e) => number_of(s@.skip(from as int), radix as nat) == Err::<nat, NumberError>(e),
        },
{
    if from == s.len() {
        return Err(NumberError::Empty);
    }
    let mut i: usize = from;
    if s[from] == '+' {
        if s.len() - from == 1 {
            return Err(NumberError::InvalidDigit);
        }
        i = from + 1;
        proof {
            assert(s@.skip(from as int).drop_first() =~= s@.skip(i as int));
        }
    }
    let mut acc: u64 = 0;
    while i < s.len()
        invariant
            radix == 10 || radix == 16,
            from <= i <= s@.len(),
            from < s@.len(),
            number_of(s@.skip(from as int), radix as nat) == read_digits(
                s@.skip(i as int),
                radix as nat,
                acc as nat,
            ),
        decreases s@.len() - i,
    {
        proof {
            assert(s@.skip(i as int)[0] == s@[i as int]);
            assert(s@.skip(i as int).drop_first() =~= s@.skip(i + 1));
            assert(acc * radix <= 0xffff_ffff_ffff_ffff * 16) by (nonlinear_arith)
                requires
                    0 <= acc <= 0xffff_ffff_ffff_ffff,
                    0 <= radix <= 16,
            ;
        }
        let d: u64 = match value_of_digit(s[i], radix) {
            Some(d) => d,
            None => return Err(NumberError::InvalidDigit),
        };
        let next: u128 = acc as u128 * radix as u128 + d as u128;
        if next > u64::MAX as u128 {
            return Err(NumberError::TooLarge);
        }
        acc = next as u64;
        i += 1;
    }
    Ok(acc)
}

/// The seed that a text spells, or what is wrong with it.
pub open spec fn seed_of(s: Seq<char>) -> Result<nat, Seq<char>> {
    let t = trimmed(s);
    if has_hex_prefix(t) {
        match number_of(t.skip(2), 16) {
            Ok(v) => Ok(v),
            Err(e) => Err("invalid hex seed: "@ + e.text()),
        }
    } else {
        match number_of(t, 10) {
            Ok(v) => Ok(v),
            Err(e) => Err("invalid decimal seed: "@ + e.text()),
        }
    }
}

/// Reads a world seed: hexadecimal after `0x`, else decimal; white space around
/// it is ignored.
pub fn parse_seed(s: &str) -> (r: Result<u64, String>)
    ensures
        match seed_of(s@) {
            Ok(v) => r == Ok::<u64, String>(v as u64),
            Err(message) => r is Err && r->Err_0@ == message,
        },
{
    let t: Vec<char> = trim_chars(s);
    if t.len() >= 2 && t[0] == '0' && (t[1] == 'x' || t[1] == 'X') {
        match read_number(&t, 2, 16) {
            Ok(v) => Ok(v),
            Err(e) => Err(String::from_str("invalid hex seed: ").concat(e.message())),
        }
    } else {
        proof {
            assert(t@.skip(0) =~= t@);
        }
        match read_number(&t, 0, 10) {
            Ok(v) => Ok(v),
            Err(e) => Err(String::from_str("invalid decimal seed: ").concat(e.message())),
        }
    }
}

proof fn lemma_read_append(s: Seq<char>, c: char, radix: nat, acc: nat)
    requires
        read_digits(s, radix, acc) is Ok,
        digit_value(c, radix) is Some,
        read_digits(s, radix, acc)->Ok_0 * radix + digit_value(c, radix)->0 <= u64::MAX,
    ensures
        read_digits(s.push(c), radix, acc) == Ok::<nat, NumberError>(
            read_digits(s, radix, acc)->Ok_0 * radix + digit_value(c, radix)->0,
        ),
    decreases s.len(),
{
    let t = s.push(c);
    if s.len() == 0 {
        assert(t.drop_first() =~= Seq::<char>::empty());
        assert(t[0] == c);
        let n = acc * radix + digit_value(c, radix)->0;
        assert(read_digits(t.drop_first(), radix, n) == Ok::<nat, NumberError>(n));
    } else {
        assert(t[0] == s[0]);
        assert(t.drop_first() =~= s.drop_first().push(c));
        lemma_read_append(s.drop_first(), c, radix, acc * radix + digit_value(s[0], radix)->0);
    }
}

proof fn lemma_digit_reads(d: nat)
    requires
        d < 10,
    ensures
        digit_value(digit_char(d), 10) == Some(d),
        digit_char(d) != '+',
        digit_char(d) != 'x',
        digit_char(d) != 'X',
        !is_white_space(digit_char(d)),
{
}

proof fn lemma_decimal_reads(n: nat)
    requires
        n <= u64::MAX,
    ensures
        read_digits(decimal(n), 10, 0) == Ok::<nat, NumberError>(n),
        decimal(n).len() > 0,
        forall|i: int| 0 <= i < decimal(n).len() ==> (#[trigger] decimal(n)[i]) != '+' && decimal(n)[i] != 'x'
            && decimal(n)[i] != 'X' && !is_white_space(decimal(n)[i]),
    decreases n,
{
    if n < 10 {
        lemma_digit_reads(n);
        let s = decimal(n);
        assert(s.drop_first() =~= Seq::<char>::empty());
        assert(read_digits(s.drop_first(), 10, n) == Ok::<nat, NumberError>(n));
    } else {
        lemma_decimal_reads(n / 10);
        lemma_digit_reads(n % 10);
        lemma_read_append(decimal(n / 10), digit_char(n % 10), 10, 0);
    }
}

/// Nothing but white space.
pub open spec fn is_blank(s: Seq<char>) -> bool {
    forall|i: int| 0 <= i < s.len() ==> is_white_space(#[trigger] s[i])
}

proof fn lemma_trim_start(pre: Seq<char>, t: Seq<char>)
    requires
        is_blank(pre),
        t.len() > 0,
        !is_white_space(t[0]),
    ensures
        trim_start(pre + t) == t,
    decreases pre.len(),
{
    if pre.len() == 0 {
        assert(pre + t =~= t);
    } else {
        assert((pre + t)[0] == pre[0]);
        assert((pre + t).drop_first() =~= pre.drop_first() + t);
        lemma_trim_start(pre.drop_first(), t);
    }
}

proof fn lemma_trim_end(t: Seq<char>, post: Seq<char>)
    requires
        is_blank(post),
        t.len() > 0,
        !is_white_space(t.last()),
    ensures
        trim_end(t + post) == t,
    decreases post.len(),
{
    if post.len() == 0 {
        assert(t + post =~= t);
    } else {
        assert((t + post).last() == post.last());
        assert((t + post).drop_last() =~= t + post.drop_last());
        lemma_trim_end(t, post.drop_last());
    }
}

proof fn lemma_trimmed(pre: Seq<char>, t: Seq<char>, post: Seq<char>)
    requires
        is_blank(pre),
        is_blank(post),
        t.len() > 0,
        !is_white_space(t[0]),
        !is_white_space(t.last()),
    ensures
        trimmed(pre + t + post) == t,
{
    assert(pre + t + post =~= pre + (t + post));
    assert((t + post)[0] == t[0]);
    lemma_trim_start(pre, t + post);
    lemma_trim_end(t, post);
}

/// Every seed reads back from its decimal spelling, whatever white space stands
/// around it.
pub proof fn decimal_seed_reads_back(n: u64, pre: Seq<char>, post: Seq<char>)
    requires
        is_blank(pre),
        is_blank(post),
    ensures
        seed_of(pre + decimal(n as nat) + post) == Ok::<nat, Seq<char>>(n as nat),
{
    lemma_decimal_reads(n as nat);
    lemma_trimmed(pre, decimal(n as nat), post);
}

/// A hexadecimal digit, in capitals or not.
pub open spec fn hex_char(d: nat, capitals: bool) -> char {
    if d < 10 {
        digit_char(d)
    } else if capitals {
        ('A' as u32 + d - 10) as char
    } else {
        ('a' as u32 + d - 10) as char
    }
}

/// A number in hexadecimal, without leading zeros.
pub open spec fn hexadecimal(n: nat, capitals: bool) -> Seq<char>
    decreases n,
{
    if n < 16 {
        seq![hex_char(n, capitals)]
    } else {
        hexadecimal(n / 16, capitals).push(hex_char(n % 16, capitals))
    }
}

proof fn lemma_hex_digit_reads(d: nat, capitals: bool)
    requires
        d < 16,
    ensures
        digit_value(hex_char(d, capitals), 16) == Some(d),
        hex_char(d, capitals) != '+',
        !is_white_space(hex_char(d, capitals)),
{
}

proof fn lemma_hexadecimal_reads(n: nat, capitals: bool)
    requires
        n <= u64::MAX,
    ensures
        read_digits(hexadecimal(n, capitals), 16, 0) == Ok::<nat, NumberError>(n),
        hexadecimal(n, capitals).len() > 0,
        forall|i: int|
            0 <= i < hexadecimal(n, capitals).len() ==> (#[trigger] hexadecimal(n, capitals)[i]) != '+'
                && !is_white_space(hexadecimal(n, capitals)[i]),
    decreases n,
{
    if n < 16 {
        lemma_hex_digit_reads(n, capitals);
        let s = hexadecimal(n, capitals);
        assert(s.drop_first() =~= Seq::<char>::empty());
        assert(read_digits(s.drop_first(), 16, n) == Ok::<nat, NumberError>(n));
    } else {
        lemma_hexadecimal_reads(n / 16, capitals);
        lemma_hex_digit_reads(n % 16, capitals);
        lemma_read_append(hexadecimal(n / 16, capitals), hex_char(n % 16, capitals), 16, 0);
    }
}

/// Every seed reads back from its hexadecimal spelling, in capitals or not,
/// after `0x` or `0X`, whatever white space stands around it.
pub proof fn hexadecimal_seed_reads_back(n: u64, capitals: bool, x: char, pre: Seq<char>, post: Seq<char>)
    requires
        x == 'x' || x == 'X',
        is_blank(pre),
        is_blank(post),
    ensures
        seed_of(pre + (seq!['0', x] + hexadecimal(n as nat, capitals)) + post) == Ok::<nat, Seq<char>>(
            n as nat,
        ),
{
    let h = hexadecimal(n as nat, capitals);
    let t = seq!['0', x] + h;
    lemma_hexadecimal_reads(n as nat, capitals);
    assert(t.last() == h.last());
    lemma_trimmed(pre, t, post);
    assert(t.skip(2) =~= h);
}

/// A plus sign in front of a number, or zeros before its digits, change nothing.
pub proof fn a_sign_and_zeros_change_nothing(s: Seq<char>, radix: nat)
    requires
        s.len() > 0,
        s[0] != '+',
    ensures
        number_of(seq!['+'] + s, radix) == number_of(s, radix),
        number_of(seq!['0'] + s, radix) == number_of(s, radix),
{
    assert((seq!['+'] + s).drop_first() =~= s);
    assert((seq!['0'] + s).drop_first() =~= s);
    assert(0 * radix == 0);
}

/// Where the characters before one are digits that spell `v`: a character that is
/// no digit refuses the number as such, and a digit that takes it past 64 bits as
/// too large, whatever follows.
pub proof fn the_first_fault_refuses_a_number(s: Seq<char>, radix: nat, acc: nat, i: int)
    requires
        0 <= i < s.len(),
        read_digits(s.take(i), radix, acc) is Ok,
    ensures
        digit_value(s[i], radix) is None ==> read_digits(s, radix, acc) == Err::<nat, NumberError>(
            NumberError::InvalidDigit,
        ),
        digit_value(s[i], radix) is Some && read_digits(s.take(i), radix, acc)->Ok_0 * radix + digit_value(
            s[i],
            radix,
        )->0 > u64::MAX ==> read_digits(s, radix, acc) == Err::<nat, NumberError>(NumberError::TooLarge),
    decreases i,
{
    if i > 0 {
        let t = s.take(i);
        assert(t[0] == s[0]);
        assert(t.drop_first() =~= s.drop_first().take(i - 1));
        assert(s.drop_first()[i - 1] == s[i]);
        the_first_fault_refuses_a_number(s.drop_first(), radix, acc * radix + digit_value(s[0], radix)->0, i - 1);
    } else {
        assert(s.take(0) =~= Seq::<char>::empty());
    }
}

/// What reads as a number holds nothing but digits and fits in 64 bits.
pub proof fn a_number_is_all_digits(s: Seq<char>, radix: nat, acc: nat)
    requires
        read_digits(s, radix, acc) is Ok,
        acc <= u64::MAX,
    ensures
        read_digits(s, radix, acc)->Ok_0 <= u64::MAX,
        forall|i: int| 0 <= i < s.len() ==> digit_value(#[trigger] s[i], radix) is Some,
    decreases s.len(),
{
    if s.len() > 0 {
        let rest = s.drop_first();
        a_number_is_all_digits(rest, radix, acc * radix + digit_value(s[0], radix)->0);
        assert forall|i: int| 0 <= i < s.len() implies digit_value(#[trigger] s[i], radix) is Some by {
            if i > 0 {
                assert(rest[i - 1] == s[i]);
            }
        }
    }
}

/// The digits are those from 0 to 9, and in base 16 the letters from a to f too,
/// in capitals or not, from 10 on.
pub proof fn digits_have_their_values(c: char)
    ensures
        digit_value(c, 10) is Some <==> '0' <= c <= '9',
        digit_value(c, 16) is Some <==> '0' <= c <= '9' || 'a' <= c <= 'f' || 'A' <= c <= 'F',
        '0' <= c <= '9' ==> digit_value(c, 10)->0 + 48 == c as int && digit_value(c, 16) == digit_value(c, 10),
        'a' <= c <= 'f' ==> digit_value(c, 16)->0 + 97 == c as int + 10,
        'A' <= c <= 'F' ==> digit_value(c, 16)->0 + 65 == c as int + 10,
{
}

} // verus!
