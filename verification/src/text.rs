//! Character sequences: white space, trimming, comparison with literals, and
//! decimal integers read from and written as text.
use vstd::prelude::*;

use crate::error::IntFault;

verus! {

/// The characters with the Unicode property `White_Space`.
pub open spec fn is_whitespace(c: char) -> bool {
    let n = c as u32;
    ||| 0x09 <= n <= 0x0d
    ||| n == 0x20
    ||| n == 0x85
    ||| n == 0xa0
    ||| n == 0x1680
    ||| 0x2000 <= n <= 0x200a
    ||| n == 0x2028
    ||| n == 0x2029
    ||| n == 0x202f
    ||| n == 0x205f
    ||| n == 0x3000
}

/// `s` without its leading white space.
pub open spec fn trim_start(s: Seq<char>) -> Seq<char>
    decreases s.len(),
{
    if s.len() > 0 && is_whitespace(s[0]) {
        trim_start(s.skip(1))
    } else {
        s
    }
}

/// `s` without its trailing white space.
pub open spec fn trim_end(s: Seq<char>) -> Seq<char>
    decreases s.len(),
{
    if s.len() > 0 && is_whitespace(s.last()) {
        trim_end(s.drop_last())
    } else {
        s
    }
}

/// `s` without its leading and trailing white space.
pub open spec fn trim(s: Seq<char>) -> Seq<char> {
    trim_end(trim_start(s))
}

/// `s` is its own trimmed form.
pub open spec fn is_trimmed(s: Seq<char>) -> bool {
    s.len() > 0 ==> !is_whitespace(s[0]) && !is_whitespace(s.last())
}

/// `s` without the quote at its start and the quote at its end, where it
/// has both; else `s` as it is.
pub open spec fn strip_quotes(s: Seq<char>) -> Seq<char> {
    if s.len() >= 2 && s[0] == '\'' && s.last() == '\'' {
        s.subrange(1, s.len() - 1)
    } else {
        s
    }
}

/// How often `c` occurs in `s`.
pub open spec fn count_char(s: Seq<char>, c: char) -> nat
    decreases s.len(),
{
    if s.len() == 0 {
        0
    } else {
        count_char(s.drop_last(), c) + if s.last() == c {
            1nat
        } else {
            0nat
        }
    }
}

/// The position of the first `c` in `s`.
pub open spec fn first_index_of(s: Seq<char>, c: char) -> Option<int>
    decreases s.len(),
{
    if s.len() == 0 {
        None
    } else if s[0] == c {
        Some(0)
    } else {
        match first_index_of(s.skip(1), c) {
            Some(i) => Some(i + 1),
            None => None,
        }
    }
}

/// The first `c` of a text is a `c`, and no `c` stands before it; a text
/// without a first `c` holds none.
pub proof fn lemma_first_index_of(s: Seq<char>, c: char)
    ensures
        match first_index_of(s, c) {
            Some(i) => 0 <= i < s.len() && s[i] == c && forall|j: int| 0 <= j < i ==> s[j] != c,
            None => forall|j: int| 0 <= j < s.len() ==> s[j] != c,
        },
    decreases s.len(),
{
    if s.len() > 0 && s[0] != c {
        lemma_first_index_of(s.skip(1), c);
        match first_index_of(s.skip(1), c) {
            Some(i) => {
                assert forall|j: int| 0 <= j < i + 1 implies s[j] != c by {
                    if j > 0 {
                        assert(s.skip(1)[j - 1] == s[j]);
                    }
                }
            },
            None => {
                assert forall|j: int| 0 <= j < s.len() implies s[j] != c by {
                    if j > 0 {
                        assert(s.skip(1)[j - 1] == s[j]);
                    }
                }
            },
        }
    }
}

/// Trimming yields a piece of the text: `trim_start(s)` is `s` from some
/// position on, none of the characters before it being anything but white
/// space, and it does not start with white space.
pub proof fn lemma_trim_start(s: Seq<char>) -> (k: int)
    ensures
        0 <= k <= s.len(),
        trim_start(s) == s.skip(k),
        forall|j: int| 0 <= j < k ==> is_whitespace(s[j]),
        k < s.len() ==> !is_whitespace(s[k]),
    decreases s.len(),
{
    if s.len() > 0 && is_whitespace(s[0]) {
        let k = lemma_trim_start(s.skip(1));
        assert(s.skip(1).skip(k) == s.skip(k + 1));
        assert forall|j: int| 0 <= j < k + 1 implies is_whitespace(s[j]) by {
            if j > 0 {
                assert(s.skip(1)[j - 1] == s[j]);
            }
        }
        if k + 1 < s.len() {
            assert(s.skip(1)[k] == s[k + 1]);
        }
        k + 1
    } else {
        assert(s.skip(0) == s);
        0
    }
}

/// `trim_end(s)` is `s` up to some position, all that follows being white
/// space, and it does not end with white space.
pub proof fn lemma_trim_end(s: Seq<char>) -> (k: int)
    ensures
        0 <= k <= s.len(),
        trim_end(s) == s.take(k),
        forall|j: int| k <= j < s.len() ==> is_whitespace(s[j]),
        k > 0 ==> !is_whitespace(s[k - 1]),
    decreases s.len(),
{
    if s.len() > 0 && is_whitespace(s.last()) {
        let k = lemma_trim_end(s.drop_last());
        assert(s.drop_last().take(k) == s.take(k));
        assert forall|j: int| k <= j < s.len() implies is_whitespace(s[j]) by {
            if j < s.len() - 1 {
                assert(s.drop_last()[j] == s[j]);
            }
        }
        if k > 0 {
            assert(s.drop_last()[k - 1] == s[k - 1]);
        }
        k
    } else {
        assert(s.take(s.len() as int) == s);
        s.len() as int
    }
}

/// The trimmed text is a piece `s.subrange(lo, hi)` of the text.
pub proof fn lemma_trim(s: Seq<char>) -> (r: (int, int))
    ensures
        0 <= r.0 <= r.1 <= s.len(),
        trim(s) == s.subrange(r.0, r.1),
        trim(s).len() <= s.len(),
        is_trimmed(trim(s)),
        forall|j: int| 0 <= j < r.0 ==> is_whitespace(s[j]),
        forall|j: int| r.1 <= j < s.len() ==> is_whitespace(s[j]),
{
    let lo = lemma_trim_start(s);
    let t = s.skip(lo);
    let k = lemma_trim_end(t);
    assert(t.take(k) == s.subrange(lo, lo + k));
    assert forall|j: int| lo + k <= j < s.len() implies is_whitespace(s[j]) by {
        assert(t[j - lo] == s[j]);
    }
    if k > 0 {
        assert(t[0] == s[lo]);
        assert(t[k - 1] == s[lo + k - 1]);
    }
    (lo, lo + k)
}

/// A text that neither starts nor ends with white space is left as it is.
pub proof fn lemma_trim_of_trimmed(s: Seq<char>)
    requires
        is_trimmed(s),
    ensures
        trim(s) == s,
{
}

/// Whether `c` is white space.
pub fn char_is_whitespace(c: char) -> (r: bool)
    ensures
        r == is_whitespace(c),
{
    let n: u32 = c as u32;
    (0x09 <= n && n <= 0x0d) || n == 0x20 || n == 0x85 || n == 0xa0 || n == 0x1680 || (0x2000 <= n
        && n <= 0x200a) || n == 0x2028 || n == 0x2029 || n == 0x202f || n == 0x205f || n == 0x3000
}

/// The characters of `s`, one by one.
pub fn to_chars(s: &str) -> (v: Vec<char>)
    ensures
        v@ == s@,
{
    let mut v: Vec<char> = Vec::new();
    for c in it: s.chars()
        invariant
            it.seq() == s@,
            v@ == it.seq().subrange(0, it.index() as int),
    {
        v.push(c);
    }
    assert(v@ == s@);
    v
}

/// `std::string::String::push` appends one character to the string.
pub assume_specification[ std::string::String::push ](s: &mut std::string::String, c: char)
    ensures
        final(s)@ == old(s)@.push(c),
;

/// Appends the characters of `s` to `out`.
pub fn push_chars(out: &mut String, s: &[char])
    ensures
        final(out)@ == old(out)@ + s@,
{
    let mut i: usize = 0;
    while i < s.len()
        invariant
            i <= s@.len(),
            out@ == old(out)@ + s@.subrange(0, i as int),
        decreases s@.len() - i,
    {
        out.push(s[i]);
        i = i + 1;
    }
    assert(s@.subrange(0, i as int) == s@);
}

/// The string made of the characters of `s`.
pub fn from_chars(s: &[char]) -> (r: String)
    ensures
        r@ == s@,
{
    let mut out = String::new();
    push_chars(&mut out, s);
    out
}

/// The string that starts with `prefix` and goes on with `s`.
pub fn prefixed(prefix: &str, s: &[char]) -> (r: String)
    ensures
        r@ == prefix@ + s@,
{
    let mut out = String::new();
    out.append(prefix);
    push_chars(&mut out, s);
    out
}

/// Whether `s` spells the literal `lit`.
pub fn eq_lit(s: &[char], lit: &str) -> (r: bool)
    ensures
        r == (s@ == lit@),
{
    let n: usize = lit.unicode_len();
    if s.len() != n {
        return false;
    }
    let mut i: usize = 0;
    while i < n
        invariant
            i <= n,
            n == s@.len(),
            n == lit@.len(),
            forall|j: int| 0 <= j < i ==> s@[j] == lit@[j],
        decreases n - i,
    {
        if s[i] != lit.get_char(i) {
            return false;
        }
        i = i + 1;
    }
    assert(s@ =~= lit@);
    true
}

/// The piece of `s` from `from` up to, not including, `to`.
pub fn slice_of(s: &[char], from: usize, to: usize) -> (r: &[char])
    requires
        from <= to <= s@.len(),
    ensures
        r@ == s@.subrange(from as int, to as int),
{
    &s[from..to]
}

/// The piece of `s` before position `i`.
pub fn slice_before(s: &[char], i: usize) -> (r: &[char])
    requires
        i <= s@.len(),
    ensures
        r@ == s@.take(i as int),
{
    &s[0..i]
}

/// The piece of `s` behind position `i`.
pub fn slice_after(s: &[char], i: usize) -> (r: &[char])
    requires
        i < s@.len(),
    ensures
        r@ == s@.skip(i + 1),
{
    let n: usize = s.len();
    &s[i + 1..n]
}

/// `s` without its leading and trailing white space.
pub fn trim_chars(s: &[char]) -> (r: &[char])
    ensures
        r@ == trim(s@),
{
    let mut lo: usize = 0;
    assert(s@.skip(0) == s@);
    while lo < s.len() && char_is_whitespace(s[lo])
        invariant
            lo <= s@.len(),
            trim_start(s@) == trim_start(s@.skip(lo as int)),
        decreases s@.len() - lo,
    {
        assert(s@.skip(lo as int).skip(1) == s@.skip(lo + 1));
        lo = lo + 1;
    }
    let mut hi: usize = s.len();
    let ghost t = s@.skip(lo as int);
    assert(t.take(t.len() as int) == t);
    while hi > lo && char_is_whitespace(s[hi - 1])
        invariant
            lo <= hi <= s@.len(),
            t == s@.skip(lo as int),
            trim_end(t) == trim_end(t.take(hi - lo)),
        decreases hi,
    {
        assert(t.take(hi - lo).last() == s@[hi - 1]);
        assert(t.take(hi - lo).drop_last() == t.take(hi - lo - 1));
        hi = hi - 1;
    }
    proof {
        if hi > lo {
            assert(t.take(hi - lo).last() == s@[hi - 1]);
        }
        assert(t.take(hi - lo) == s@.subrange(lo as int, hi as int));
    }
    slice_of(s, lo, hi)
}

/// The position of the first `c` in `s`.
pub fn find_char(s: &[char], c: char) -> (r: Option<usize>)
    ensures
        match r {
            Some(i) => first_index_of(s@, c) == Some(i as int),
            None => first_index_of(s@, c) is None,
        },
{
    let mut i: usize = 0;
    while i < s.len()
        invariant
            i <= s@.len(),
            forall|j: int| 0 <= j < i ==> s@[j] != c,
        decreases s@.len() - i,
    {
        if s[i] == c {
            proof {
                lemma_first_index_of(s@, c);
            }
            return Some(i);
        }
        i = i + 1;
    }
    proof {
        lemma_first_index_of(s@, c);
    }
    None
}

/// `s` without the quote at its start and the quote at its end, where it
/// has both.
pub fn strip_quotes_chars(s: &[char]) -> (r: &[char])
    ensures
        r@ == strip_quotes(s@),
{
    let n: usize = s.len();
    if n >= 2 && s[0] == '\'' && s[n - 1] == '\'' {
        slice_of(s, 1, n - 1)
    } else {
        s
    }
}

/// The decimal digits.
pub open spec fn is_digit(c: char) -> bool {
    0x30 <= c as u32 <= 0x39
}

/// The number that a decimal digit stands for.
pub open spec fn digit_value(c: char) -> nat {
    (c as u32 - 0x30) as nat
}

/// Whether `s` holds decimal digits only.
pub open spec fn all_digits(s: Seq<char>) -> bool {
    forall|i: int| 0 <= i < s.len() ==> is_digit(#[trigger] s[i])
}

/// The number that a run of decimal digits denotes; the empty run denotes 0.
pub open spec fn digits_value(s: Seq<char>) -> nat
    decreases s.len(),
{
    if s.len() == 0 {
        0
    } else {
        digits_value(s.drop_last()) * 10 + digit_value(s.last())
    }
}

/// The integer between `min` and `max` that `s` denotes: an optional sign
/// (`-` only where the type has negative values) and at least one digit,
/// with nothing before, between or after.  A malformed text is reported
/// before a number out of range.
pub open spec fn parse_int(s: Seq<char>, min: int, max: int) -> core::result::Result<
    int,
    IntFault,
> {
    if s.len() == 0 {
        Err(IntFault::Empty)
    } else {
        let negative = min < 0 && s[0] == '-';
        let digits = if negative || s[0] == '+' {
            s.skip(1)
        } else {
            s
        };
        if digits.len() == 0 || !all_digits(digits) {
            Err(IntFault::InvalidDigit)
        } else if negative {
            if -digits_value(digits) < min {
                Err(IntFault::NegOverflow)
            } else {
                Ok(-digits_value(digits))
            }
        } else {
            if digits_value(digits) > max {
                Err(IntFault::PosOverflow)
            } else {
                Ok(digits_value(digits) as int)
            }
        }
    }
}

/// The character of a number below ten.
pub open spec fn digit_char(d: nat) -> char {
    (0x30 + d) as char
}

/// The decimal digits of `n`, without leading zeros.
pub open spec fn nat_text(n: nat) -> Seq<char>
    decreases n,
{
    if n < 10 {
        seq![digit_char(n)]
    } else {
        nat_text(n / 10).push(digit_char(n % 10))
    }
}

/// The decimal text of `v`, with `-` in front of a negative number.
pub open spec fn int_text(v: int) -> Seq<char> {
    if v < 0 {
        seq!['-'] + nat_text((-v) as nat)
    } else {
        nat_text(v as nat)
    }
}

/// A number's text is digits only, starts with no zero unless the number is
/// 0, and denotes the number.
pub proof fn lemma_nat_text(n: nat)
    ensures
        nat_text(n).len() > 0,
        all_digits(nat_text(n)),
        digits_value(nat_text(n)) == n,
        nat_text(n)[0] != '+' && nat_text(n)[0] != '-',
    decreases n,
{
    if n < 10 {
        let s = seq![digit_char(n)];
        assert(s.drop_last() == Seq::<char>::empty());
        assert(digits_value(s.drop_last()) == 0);
    } else {
        lemma_nat_text(n / 10);
        let s = nat_text(n);
        assert(s.drop_last() == nat_text(n / 10));
        assert(s[0] == nat_text(n / 10)[0]);
    }
}

/// Reading the text of a number in range gives the number back.
pub proof fn lemma_parse_int_text(v: int, min: int, max: int)
    requires
        min <= v <= max,
        min <= 0,
    ensures
        parse_int(int_text(v), min, max) == Ok::<int, IntFault>(v),
{
    if v < 0 {
        lemma_nat_text((-v) as nat);
        assert(int_text(v).skip(1) == nat_text((-v) as nat));
    } else {
        lemma_nat_text(v as nat);
    }
}

/// Whether `c` is a decimal digit, and which.
pub fn digit_of(c: char) -> (r: Option<u8>)
    ensures
        match r {
            Some(d) => is_digit(c) && d == digit_value(c),
            None => !is_digit(c),
        },
{
    let n: u32 = c as u32;
    if 0x30 <= n && n <= 0x39 {
        Some((n - 0x30) as u8)
    } else {
        None
    }
}

/// Reads a decimal integer between `min` and `max`.
pub fn parse_int_chars(s: &[char], min: i128, max: i128) -> (r: core::result::Result<
    i128,
    IntFault,
>)
    requires
        -0x1_0000_0000_0000_0000 <= min <= 0 <= max <= 0x1_0000_0000_0000_0000,
    ensures
        match r {
            Ok(v) => parse_int(s@, min as int, max as int) == Ok::<int, IntFault>(v as int),
            Err(f) => parse_int(s@, min as int, max as int) == Err::<int, IntFault>(f),
        },
{
    if s.len() == 0 {
        return Err(IntFault::Empty);
    }
    let negative: bool = min < 0 && s[0] == '-';
    let start: usize = if negative || s[0] == '+' {
        1
    } else {
        0
    };
    let ghost digits = s@.skip(start as int);
    if start == s.len() {
        return Err(IntFault::InvalidDigit);
    }
    let limit: i128 = if negative {
        -min
    } else {
        max
    };
    let mut acc: i128 = 0;
    let mut over: bool = false;
    let mut i: usize = start;
    assert(digits.take(0) == Seq::<char>::empty());
    while i < s.len()
        invariant
            start <= i <= s@.len(),
            s@.len() > 0,
            negative == (min < 0 && s@[0] == '-'),
            start == (if negative || s@[0] == '+' {
                1int
            } else {
                0int
            }),
            limit == (if negative {
                -min
            } else {
                max as int
            }),
            digits == s@.skip(start as int),
            0 <= limit <= 0x1_0000_0000_0000_0000,
            all_digits(digits.take(i - start)),
            !over ==> acc == digits_value(digits.take(i - start)) && 0 <= acc <= limit,
            over ==> digits_value(digits.take(i - start)) > limit,
        decreases s@.len() - i,
    {
        let ghost before = digits.take(i - start);
        let ghost after = digits.take(i - start + 1);
        assert(after.drop_last() == before);
        assert(after.last() == s@[i as int]);
        match digit_of(s[i]) {
            None => {
                assert(!is_digit(digits[i - start]));
                assert(digits == if negative || s@[0] == '+' {
                    s@.skip(1)
                } else {
                    s@
                });
                return Err(IntFault::InvalidDigit);
            },
            Some(d) => {
                assert forall|j: int| 0 <= j < after.len() implies is_digit(#[trigger] after[j]) by {
                    if j < before.len() {
                        assert(before[j] == after[j]);
                    }
                }
                if !over {
                    let next: i128 = acc * 10 + d as i128;
                    if next > limit {
                        over = true;
                    } else {
                        acc = next;
                    }
                } else {
                    assert(digits_value(after) >= digits_value(before)) by (nonlinear_arith)
                        requires
                            digits_value(after) == digits_value(before) * 10 + digit_value(
                                after.last(),
                            ),
                    ;
                }
            },
        }
        i = i + 1;
    }
    assert(digits.take(i - start) == digits);
    assert(digits == if negative || s@[0] == '+' {
        s@.skip(1)
    } else {
        s@
    });
    if over {
        if negative {
            Err(IntFault::NegOverflow)
        } else {
            Err(IntFault::PosOverflow)
        }
    } else if negative {
        Ok(-acc)
    } else {
        Ok(acc)
    }
}

/// Appends the decimal digits of `n` to `out`.
pub fn render_nat(out: &mut String, n: u128)
    ensures
        final(out)@ == old(out)@ + nat_text(n as nat),
    decreases n,
{
    if n >= 10 {
        render_nat(out, n / 10);
    }
    let d: u8 = (n % 10) as u8;
    let c: char = (0x30u8 + d) as char;
    assert(c == digit_char((n % 10) as nat));
    out.push(c);
    proof {
        if n >= 10 {
            assert(old(out)@ + nat_text(n as nat / 10).push(c) == (old(out)@ + nat_text(
                n as nat / 10,
            )).push(c));
        } else {
            assert(old(out)@ + seq![c] == old(out)@.push(c));
        }
    }
}

/// Appends the decimal text of `v` to `out`.
pub fn render_int(out: &mut String, v: i128)
    requires
        v > i128::MIN,
    ensures
        final(out)@ == old(out)@ + int_text(v as int),
{
    if v < 0 {
        out.push('-');
        render_nat(out, (-v) as u128);
        assert(old(out)@.push('-') + nat_text((-v) as nat) == old(out)@ + (seq!['-'] + nat_text(
            (-v) as nat,
        )));
    } else {
        render_nat(out, v as u128);
    }
}

} // verus!
