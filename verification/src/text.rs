//! Small text helpers: comparing string slices, and writing numbers in
//! decimal and hexadecimal the way `format!` does.
use vstd::prelude::*;
use vstd::string::StrSliceExecFns;

verus! {

/// `s` begins with `prefix`.
pub open spec fn starts_with(s: Seq<char>, prefix: Seq<char>) -> bool {
    prefix.len() <= s.len() && s.take(prefix.len() as int) == prefix
}

/// `a` and `b` hold the same characters.
pub fn str_eq(a: &str, b: &str) -> (r: bool)
    ensures
        r == (a@ == b@),
{
    let n = a.unicode_len();
    if n != b.unicode_len() {
        return false;
    }
    let mut i = 0usize;
    while i < n
        invariant
            n == a@.len(),
            n == b@.len(),
            i <= n,
            forall|j: int| 0 <= j < i ==> a@[j] == b@[j],
        decreases n - i,
    {
        if a.get_char(i) != b.get_char(i) {
            return false;
        }
        i += 1;
    }
    proof {
        assert(a@ =~= b@);
    }
    true
}

/// `s` begins with `prefix`.
pub fn str_starts_with(s: &str, prefix: &str) -> (r: bool)
    ensures
        r == starts_with(s@, prefix@),
{
    let n = prefix.unicode_len();
    if n > s.unicode_len() {
        return false;
    }
    let mut i = 0usize;
    while i < n
        invariant
            n == prefix@.len(),
            n <= s@.len(),
            i <= n,
            forall|j: int| 0 <= j < i ==> s@[j] == prefix@[j],
        decreases n - i,
    {
        if s.get_char(i) != prefix.get_char(i) {
            return false;
        }
        i += 1;
    }
    proof {
        assert(s@.take(n as int) =~= prefix@);
    }
    true
}

/// Appends `c` to `s` (`String::push`).
#[verifier::external_body]
pub(crate) fn push_char(s: &mut String, c: char)
    ensures
        final(s)@ == old(s)@.push(c),
{
    s.push(c);
}

/// Appends `t` to `s`.
pub fn push_str(s: &mut String, t: &str)
    ensures
        final(s)@ == old(s)@ + t@,
{
    let n = t.unicode_len();
    let mut i = 0usize;
    while i < n
        invariant
            n == t@.len(),
            i <= n,
            s@ == old(s)@ + t@.take(i as int),
        decreases n - i,
    {
        push_char(s, t.get_char(i));
        proof {
            assert(t@.take(i + 1) =~= t@.take(i as int).push(t@[i as int]));
        }
        i += 1;
    }
    proof {
        assert(t@.take(n as int) =~= t@);
    }
}

/// How a byte shows in an ASCII column: printable ASCII (space included)
/// as itself, anything else as `.`.
pub open spec fn ascii_char(b: u8) -> char {
    if 0x20 <= b <= 0x7e {
        b as char
    } else {
        '.'
    }
}

/// The character a byte shows as in an ASCII column.
pub fn printable(b: u8) -> (c: char)
    ensures
        c == ascii_char(b),
{
    if 0x20 <= b && b <= 0x7e {
        b as char
    } else {
        '.'
    }
}

/// The digit for `d` (below 16): `0`-`9`, then lowercase `a`-`f`.
pub open spec fn digit_char(d: nat) -> char {
    if d < 10 {
        (48 + d) as char
    } else {
        (87 + d) as char
    }
}

/// `n` written in base `base` with no leading zeros (`0` for zero).
pub open spec fn digits(n: nat, base: nat) -> Seq<char>
    recommends
        2 <= base <= 16,
    decreases n,
    when base >= 2
{
    if n < base {
        seq![digit_char(n)]
    } else {
        proof {
            assert(n / base < n) by (nonlinear_arith)
                requires
                    n >= base,
                    base >= 2,
            ;
        }
        digits(n / base, base).push(digit_char(n % base))
    }
}

/// `s` padded on the left with `fill` to at least `width` characters.
pub open spec fn pad_left(s: Seq<char>, width: nat, fill: char) -> Seq<char> {
    if s.len() >= width {
        s
    } else {
        Seq::new((width - s.len()) as nat, |i: int| fill) + s
    }
}

/// `n` in decimal, as `{}` prints it.
pub open spec fn decimal(n: nat) -> Seq<char> {
    digits(n, 10)
}

/// `n` in lowercase hexadecimal, zero-padded to `width` digits, as
/// `{:0width$x}` prints it.
pub open spec fn hex(n: nat, width: nat) -> Seq<char> {
    pad_left(digits(n, 16), width, '0')
}

/// The digit character for `d` (below 16).
pub fn digit(d: u64) -> (c: char)
    requires
        d < 16,
    ensures
        c == digit_char(d as nat),
{
    if d < 10 {
        (48 + d as u8) as char
    } else {
        (87 + d as u8) as char
    }
}

/// How many digits `n` has in base `base`.
pub fn digit_count(n: u64, base: u64) -> (r: usize)
    requires
        2 <= base <= 16,
    ensures
        r == digits(n as nat, base as nat).len(),
    decreases n,
{
    if n < base {
        1
    } else {
        proof {
            assert(n / base < n) by (nonlinear_arith)
                requires
                    n >= base,
                    base >= 2,
            ;
        }
        let r = digit_count(n / base, base);
        proof {
            assert(r <= 64) by {
                lemma_digits_len(n / base, base as nat);
            }
        }
        r + 1
    }
}

proof fn lemma_digits_len(n: u64, base: nat)
    requires
        2 <= base <= 16,
    ensures
        digits(n as nat, base).len() <= 64,
{
    vstd::arithmetic::power2::lemma2_to64();
    vstd::arithmetic::power2::lemma_pow2(64);
    lemma_pow_mono(2, base, 64);
    lemma_digits_len_pow(n as nat, base, 64);
}

/// A `u64` padded to at most 64 hex digits is at most 64 characters long.
pub proof fn lemma_hex_len_u64(n: u64, width: nat)
    requires
        width <= 64,
    ensures
        hex(n as nat, width).len() <= 64,
{
    lemma_digits_len(n, 16);
}

/// A `u32` has at most ten decimal digits.
pub proof fn lemma_decimal_len_u32(n: u32)
    ensures
        decimal(n as nat).len() <= 10,
{
    reveal_with_fuel(vstd::arithmetic::power::pow, 11);
    assert(vstd::arithmetic::power::pow(10, 10) == 10000000000);
    lemma_digits_len_pow(n as nat, 10, 10);
}

/// A number below `base^k` has at most `k` digits.
proof fn lemma_digits_len_pow(n: nat, base: nat, k: nat)
    requires
        2 <= base <= 16,
        k >= 1,
        n < vstd::arithmetic::power::pow(base as int, k),
    ensures
        digits(n, base).len() <= k,
    decreases k,
{
    reveal(vstd::arithmetic::power::pow);
    if n >= base {
        if k == 1 {
            assert(vstd::arithmetic::power::pow(base as int, 0) == 1);
        }
        let p = vstd::arithmetic::power::pow(base as int, (k - 1) as nat);
        vstd::arithmetic::div_mod::lemma_fundamental_div_mod(n as int, base as int);
        assert(n / base < p) by (nonlinear_arith)
            requires
                n < base * p,
                n == base * (n / base) + n % base,
                n % base >= 0,
                base > 0,
        ;
        lemma_digits_len_pow(n / base, base, (k - 1) as nat);
    }
}

proof fn lemma_pow_mono(a: nat, b: nat, k: nat)
    requires
        1 <= a <= b,
    ensures
        vstd::arithmetic::power::pow(a as int, k) <= vstd::arithmetic::power::pow(b as int, k),
    decreases k,
{
    reveal(vstd::arithmetic::power::pow);
    if k > 0 {
        lemma_pow_mono(a, b, (k - 1) as nat);
        vstd::arithmetic::power::lemma_pow_positive(a as int, (k - 1) as nat);
        let pa = vstd::arithmetic::power::pow(a as int, (k - 1) as nat);
        let pb = vstd::arithmetic::power::pow(b as int, (k - 1) as nat);
        assert(a * pa <= b * pb) by (nonlinear_arith)
            requires
                1 <= a <= b,
                0 < pa <= pb,
        ;
    }
}

/// Appends `n` in base `base`, with no leading zeros.
fn push_digits(s: &mut String, n: u64, base: u64)
    requires
        2 <= base <= 16,
    ensures
        final(s)@ == old(s)@ + digits(n as nat, base as nat),
    decreases n,
{
    if n >= base {
        proof {
            assert(n / base < n) by (nonlinear_arith)
                requires
                    n >= base,
                    base >= 2,
            ;
        }
        push_digits(s, n / base, base);
    }
    proof {
        assert(n % base < base) by (nonlinear_arith)
            requires
                base >= 2,
        ;
    }
    push_char(s, digit(n % base));
    proof {
        if n < base {
            assert(n % base == n) by (nonlinear_arith)
                requires
                    n < base,
            ;
            assert(digits(n as nat, base as nat) =~= seq![digit_char(n as nat)]);
        }
    }
}

/// Appends `fill` `count` times.
fn push_fill(s: &mut String, fill: char, count: usize)
    ensures
        final(s)@ == old(s)@ + Seq::new(count as nat, |i: int| fill),
{
    let mut i = 0usize;
    while i < count
        invariant
            i <= count,
            s@ == old(s)@ + Seq::new(i as nat, |j: int| fill),
        decreases count - i,
    {
        push_char(s, fill);
        proof {
            assert(Seq::new((i + 1) as nat, |j: int| fill) =~= Seq::new(i as nat, |j: int| fill).push(fill));
        }
        i += 1;
    }
}

/// Appends `n` in base `base`, padded on the left with `fill` to at least
/// `width` characters.
pub fn push_padded(s: &mut String, n: u64, base: u64, width: usize, fill: char)
    requires
        2 <= base <= 16,
    ensures
        final(s)@ == old(s)@ + pad_left(digits(n as nat, base as nat), width as nat, fill),
{
    let count = digit_count(n, base);
    if count < width {
        push_fill(s, fill, width - count);
    }
    push_digits(s, n, base);
    proof {
        let d = digits(n as nat, base as nat);
        if count < width {
            assert(old(s)@ + Seq::new((width - count) as nat, |i: int| fill) + d =~= old(s)@ + pad_left(d, width as nat, fill));
        }
    }
}

/// Appends `n` in decimal.
pub fn push_decimal(s: &mut String, n: u64)
    ensures
        final(s)@ == old(s)@ + decimal(n as nat),
{
    push_digits(s, n, 10);
}

/// Appends `n` in lowercase hexadecimal, zero-padded to `width` digits.
pub fn push_hex(s: &mut String, n: u64, width: usize)
    ensures
        final(s)@ == old(s)@ + hex(n as nat, width as nat),
{
    push_padded(s, n, 16, width, '0');
}

} // verus!
