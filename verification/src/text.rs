//! Character-level helpers shared by the address and range grammars:
//! decimal digits, whitespace, and moving between `&str`, `Vec<char>` and
//! `String`.

use vstd::prelude::*;

verus! {

/// Appends one character.
///
/// Trusted: `String::push` extends the text by exactly the given character.
pub assume_specification[ String::push ](s: &mut String, ch: char)
    ensures
        final(s)@ == old(s)@.push(ch),
;

/// Removes and returns the last character, if there is one.
///
/// Trusted: `String::pop` returns `None` on the empty text and leaves it
/// empty; otherwise it returns the last character and drops it from the text.
pub assume_specification[ String::pop ](s: &mut String) -> (r: Option<char>)
    ensures
        old(s)@.len() == 0 ==> r is None && final(s)@ == old(s)@,
        old(s)@.len() > 0 ==> r == Some(old(s)@.last()) && final(s)@ == old(s)@.drop_last(),
;

// ---------------------------------------------------------------------------
// Digits and decimal numerals
// ---------------------------------------------------------------------------

/// `c` is one of the ASCII digits `0`..`9`.
pub open spec fn is_digit(c: char) -> bool {
    '0' <= c && c <= '9'
}

/// The number a digit stands for.
pub open spec fn digit_value(c: char) -> nat
    recommends
        is_digit(c),
{
    (c as int - '0' as int) as nat
}

/// The digit that stands for `d`.
pub open spec fn digit_char(d: nat) -> char
    recommends
        d < 10,
{
    (d + '0' as nat) as char
}

/// Every character of `s` is a digit.
pub open spec fn all_digits(s: Seq<char>) -> bool {
    forall|i: int| 0 <= i < s.len() ==> is_digit(#[trigger] s[i])
}

/// The decimal numeral of `n`: no sign, no leading zero, `"0"` for zero.
pub open spec fn decimal(n: nat) -> Seq<char>
    decreases n,
{
    if n < 10 {
        seq![digit_char(n)]
    } else {
        decimal(n / 10).push(digit_char(n % 10))
    }
}

/// The number that a string of digits denotes, read in base ten. Leading
/// zeros are allowed and the empty string denotes zero.
pub open spec fn decimal_value(s: Seq<char>) -> nat
    decreases s.len(),
{
    if s.len() == 0 {
        0
    } else {
        decimal_value(s.drop_last()) * 10 + digit_value(s.last())
    }
}

/// `s` is a numeral as `decimal` writes them: at least one digit, digits
/// only, and no leading zero unless the numeral is `"0"` itself.
pub open spec fn is_canonical(s: Seq<char>) -> bool {
    &&& s.len() >= 1
    &&& all_digits(s)
    &&& (s.len() == 1 || s[0] != '0')
}

/// The length of the longest prefix of `s` that consists of digits.
pub open spec fn digit_run(s: Seq<char>) -> nat
    decreases s.len(),
{
    if s.len() > 0 && is_digit(s[0]) {
        1 + digit_run(s.skip(1))
    } else {
        0
    }
}

/// The numerals of numbers below ten, a hundred and a thousand, written out.
pub proof fn lemma_decimal_small(n: nat)
    ensures
        n < 10 ==> decimal(n) == seq![digit_char(n)],
        10 <= n < 100 ==> decimal(n) == seq![digit_char(n / 10), digit_char(n % 10)],
        100 <= n < 1000 ==> decimal(n) == seq![
            digit_char(n / 100),
            digit_char((n / 10) % 10),
            digit_char(n % 10),
        ],
{
    reveal_with_fuel(decimal, 3);
    if 10 <= n < 100 {
        assert(decimal(n) =~= seq![digit_char(n / 10), digit_char(n % 10)]);
    } else if 100 <= n < 1000 {
        assert((n / 10) / 10 == n / 100);
        assert(decimal(n) =~= seq![
            digit_char(n / 100),
            digit_char((n / 10) % 10),
            digit_char(n % 10),
        ]);
    }
}

/// A numeral is canonical and denotes the number it was written for.
pub proof fn lemma_decimal_round_trip(n: nat)
    ensures
        is_canonical(decimal(n)),
        decimal_value(decimal(n)) == n,
        n > 0 ==> decimal(n)[0] != '0',
    decreases n,
{
    if n < 10 {
        let s = decimal(n);
        assert(s.drop_last() =~= Seq::<char>::empty());
        assert(decimal_value(s.drop_last()) == 0);
    } else {
        lemma_decimal_round_trip(n / 10);
        let head = decimal(n / 10);
        let s = decimal(n);
        assert(s.drop_last() =~= head);
        assert(s[0] == head[0]);
    }
}

/// A canonical numeral is the numeral of the number it denotes: each number
/// has exactly one canonical spelling.
pub proof fn lemma_canonical_is_decimal(s: Seq<char>)
    requires
        is_canonical(s),
    ensures
        decimal(decimal_value(s)) == s,
    decreases s.len(),
{
    if s.len() == 1 {
        assert(s.drop_last() =~= Seq::<char>::empty());
        assert(decimal_value(s.drop_last()) == 0);
        assert(decimal(decimal_value(s)) =~= s);
    } else {
        let head = s.drop_last();
        assert(is_canonical(head)) by {
            assert forall|i: int| 0 <= i < head.len() implies is_digit(#[trigger] head[i]) by {
                assert(head[i] == s[i]);
            }
        }
        lemma_canonical_is_decimal(head);
        lemma_value_of_canonical_positive(head);
        let v = decimal_value(s);
        assert(v / 10 == decimal_value(head));
        assert(v % 10 == digit_value(s.last()));
        assert(decimal(v) =~= s);
    }
}

/// A digit string that does not start with `0` denotes a positive number.
proof fn lemma_value_of_canonical_positive(s: Seq<char>)
    requires
        s.len() >= 1,
        all_digits(s),
        s[0] != '0',
    ensures
        decimal_value(s) >= 1,
    decreases s.len(),
{
    if s.len() == 1 {
        assert(s.drop_last() =~= Seq::<char>::empty());
        assert(decimal_value(s.drop_last()) == 0);
    } else {
        let head = s.drop_last();
        assert forall|i: int| 0 <= i < head.len() implies is_digit(#[trigger] head[i]) by {
            assert(head[i] == s[i]);
        }
        lemma_value_of_canonical_positive(head);
    }
}

/// Appending a digit to a digit string multiplies its value by ten and adds
/// the digit.
pub proof fn lemma_decimal_value_push(s: Seq<char>, c: char)
    ensures
        decimal_value(s.push(c)) == decimal_value(s) * 10 + digit_value(c),
{
    assert(s.push(c).drop_last() =~= s);
}

/// The digit run of `s` has length `n` when the first `n` characters are
/// digits and the next one, if there is one, is not.
pub proof fn lemma_digit_run_is(s: Seq<char>, n: nat)
    requires
        n <= s.len(),
        forall|i: int| 0 <= i < n ==> is_digit(#[trigger] s[i]),
        n < s.len() ==> !is_digit(s[n as int]),
    ensures
        digit_run(s) == n,
    decreases n,
{
    if n > 0 {
        let rest = s.skip(1);
        assert forall|i: int| 0 <= i < n - 1 implies is_digit(#[trigger] rest[i]) by {
            assert(rest[i] == s[i + 1]);
        }
        lemma_digit_run_is(rest, (n - 1) as nat);
    }
}

/// What `digit_run` measures: a prefix of digits that cannot be extended.
pub proof fn lemma_digit_run_props(s: Seq<char>)
    ensures
        digit_run(s) <= s.len(),
        forall|i: int| 0 <= i < digit_run(s) ==> is_digit(#[trigger] s[i]),
        digit_run(s) < s.len() ==> !is_digit(s[digit_run(s) as int]),
    decreases s.len(),
{
    if s.len() > 0 && is_digit(s[0]) {
        let rest = s.skip(1);
        lemma_digit_run_props(rest);
        assert forall|i: int| 0 <= i < digit_run(s) implies is_digit(#[trigger] s[i]) by {
            if i > 0 {
                assert(s[i] == rest[i - 1]);
            }
        }
        if digit_run(s) < s.len() {
            assert(s[digit_run(s) as int] == rest[digit_run(rest) as int]);
        }
    }
}

/// Whether `c` is an ASCII digit, and which.
pub fn digit_of(c: char) -> (r: Option<u8>)
    ensures
        r is Some <==> is_digit(c),
        r matches Some(d) ==> d as nat == digit_value(c) && d < 10,
{
    if '0' <= c && c <= '9' {
        Some(((c as u32) - 48) as u8)
    } else {
        None
    }
}

/// The digit that stands for `d`.
pub(crate) fn char_of_digit(d: u8) -> (c: char)
    requires
        d < 10,
    ensures
        c == digit_char(d as nat),
        is_digit(c),
        digit_value(c) == d,
{
    (d + 48) as char
}

/// Appends the decimal numeral of `n` to `out`.
pub fn push_decimal(out: &mut String, n: u32)
    ensures
        final(out)@ == old(out)@ + decimal(n as nat),
    decreases n,
{
    if n >= 10 {
        push_decimal(out, n / 10);
    }
    let d: u8 = (n % 10) as u8;
    out.push(char_of_digit(d));
    assert(out@ =~= old(out)@ + decimal(n as nat));
}

/// The value of a digit string never falls below the value of one of its
/// prefixes.
pub proof fn lemma_value_of_prefix(s: Seq<char>, k: int)
    requires
        all_digits(s),
        0 <= k <= s.len(),
    ensures
        decimal_value(s.take(k)) <= decimal_value(s),
    decreases s.len() - k,
{
    if k < s.len() {
        let head = s.drop_last();
        assert forall|i: int| 0 <= i < head.len() implies is_digit(#[trigger] head[i]) by {
            assert(head[i] == s[i]);
        }
        lemma_value_of_prefix(head, k);
        assert(head.take(k) =~= s.take(k));
    } else {
        assert(s.take(k) =~= s);
    }
}

/// The byte that a digit string denotes: one or more digits, leading zeros
/// allowed, that denote a number up to 255.
pub open spec fn byte_of_digits(digits: Seq<char>) -> Option<u8> {
    if digits.len() > 0 && all_digits(digits) && decimal_value(digits) <= 255 {
        Some(decimal_value(digits) as u8)
    } else {
        None
    }
}

/// The byte that `s` spells: an optional `+` and then the digits of a byte.
pub open spec fn byte_of_text(s: Seq<char>) -> Option<u8> {
    if s.len() > 0 && s[0] == '+' {
        byte_of_digits(s.skip(1))
    } else {
        byte_of_digits(s)
    }
}

/// Reads a byte from the characters `chars[lo..hi)`.
pub(crate) fn parse_byte(chars: &Vec<char>, lo: usize, hi: usize) -> (r: Option<u8>)
    requires
        lo <= hi <= chars@.len(),
    ensures
        r == byte_of_text(chars@.subrange(lo as int, hi as int)),
{
    let ghost s = chars@.subrange(lo as int, hi as int);
    let from: usize = if lo < hi && chars[lo] == '+' {
        lo + 1
    } else {
        lo
    };
    let ghost digits = chars@.subrange(from as int, hi as int);
    proof {
        if lo < hi {
            assert(s[0] == chars@[lo as int]);
        }
        if from > lo {
            assert(s.skip(1) =~= digits);
        } else {
            assert(s =~= digits);
        }
    }
    if from == hi {
        return None;
    }
    let mut j: usize = from;
    let mut value: u32 = 0;
    while j < hi
        invariant
            from <= j <= hi <= chars@.len(),
            from < hi,
            digits == chars@.subrange(from as int, hi as int),
            byte_of_text(chars@.subrange(lo as int, hi as int)) == byte_of_digits(digits),
            forall|i: int| 0 <= i < j - from ==> is_digit(#[trigger] digits[i]),
            value == decimal_value(digits.take(j - from)),
            value <= 255,
        decreases hi - j,
    {
        assert(digits[j - from] == chars@[j as int]);
        match digit_of(chars[j]) {
            None => {
                return None;
            },
            Some(d) => {
                proof {
                    lemma_decimal_value_push(digits.take(j - from), digits[j - from]);
                    assert(digits.take(j - from).push(digits[j - from]) =~= digits.take(
                        j - from + 1,
                    ));
                }
                value = value * 10 + d as u32;
                j = j + 1;
                if value > 255 {
                    proof {
                        if all_digits(digits) {
                            lemma_value_of_prefix(digits, j - from);
                        }
                    }
                    return None;
                }
            },
        }
    }
    assert(digits.take(j - from) =~= digits);
    Some(value as u8)
}

// ---------------------------------------------------------------------------
// Fields
// ---------------------------------------------------------------------------

/// The length of the longest prefix of `s` in which `sep` does not occur.
pub open spec fn span_before(s: Seq<char>, sep: char) -> nat
    decreases s.len(),
{
    if s.len() > 0 && s[0] != sep {
        1 + span_before(s.skip(1), sep)
    } else {
        0
    }
}

/// The first field of `s`: what stands before the first `sep`, or all of
/// `s` if there is none.
pub open spec fn first_field(s: Seq<char>, sep: char) -> Seq<char> {
    s.take(span_before(s, sep) as int)
}

/// What follows the first `sep` in `s`, if `sep` occurs.
pub open spec fn after_first(s: Seq<char>, sep: char) -> Option<Seq<char>> {
    if span_before(s, sep) < s.len() {
        Some(s.skip(span_before(s, sep) as int + 1))
    } else {
        None
    }
}

/// The span before `sep` has length `n` when `sep` is not among the first
/// `n` characters and is the next one, if there is a next one.
pub proof fn lemma_span_before_is(s: Seq<char>, sep: char, n: nat)
    requires
        n <= s.len(),
        forall|i: int| 0 <= i < n ==> #[trigger] s[i] != sep,
        n < s.len() ==> s[n as int] == sep,
    ensures
        span_before(s, sep) == n,
    decreases n,
{
    if n > 0 {
        let rest = s.skip(1);
        assert forall|i: int| 0 <= i < n - 1 implies #[trigger] rest[i] != sep by {
            assert(rest[i] == s[i + 1]);
        }
        lemma_span_before_is(rest, sep, (n - 1) as nat);
    }
}

/// The position of the first `sep` in `chars[lo..hi)`, or `hi` if there is
/// none.
pub(crate) fn find_char(chars: &Vec<char>, lo: usize, hi: usize, sep: char) -> (pos: usize)
    requires
        lo <= hi <= chars@.len(),
    ensures
        lo <= pos <= hi,
        pos - lo == span_before(chars@.subrange(lo as int, hi as int), sep),
{
    let ghost s = chars@.subrange(lo as int, hi as int);
    let mut j: usize = lo;
    while j < hi && chars[j] != sep
        invariant
            lo <= j <= hi <= chars@.len(),
            s == chars@.subrange(lo as int, hi as int),
            forall|i: int| 0 <= i < j - lo ==> #[trigger] s[i] != sep,
        decreases hi - j,
    {
        assert(s[j - lo] == chars@[j as int]);
        j = j + 1;
    }
    proof {
        if j < hi {
            assert(s[j - lo] == chars@[j as int]);
        }
        lemma_span_before_is(s, sep, (j - lo) as nat);
    }
    j
}

// ---------------------------------------------------------------------------
// Whitespace
// ---------------------------------------------------------------------------

/// `c` has the Unicode property `White_Space`.
pub open spec fn is_space(c: char) -> bool {
    let n = c as int;
    ||| 0x09 <= n <= 0x0D
    ||| n == 0x20
    ||| n == 0x85
    ||| n == 0xA0
    ||| n == 0x1680
    ||| 0x2000 <= n <= 0x200A
    ||| n == 0x2028
    ||| n == 0x2029
    ||| n == 0x202F
    ||| n == 0x205F
    ||| n == 0x3000
}

/// `s` without its leading whitespace.
pub open spec fn trim_start(s: Seq<char>) -> Seq<char>
    decreases s.len(),
{
    if s.len() > 0 && is_space(s[0]) {
        trim_start(s.skip(1))
    } else {
        s
    }
}

/// `s` without its trailing whitespace.
pub open spec fn trim_end(s: Seq<char>) -> Seq<char>
    decreases s.len(),
{
    if s.len() > 0 && is_space(s.last()) {
        trim_end(s.drop_last())
    } else {
        s
    }
}

/// `s` without leading and trailing whitespace.
pub open spec fn trim(s: Seq<char>) -> Seq<char> {
    trim_end(trim_start(s))
}

/// Trimming removes whitespace only: a character that is no whitespace and
/// stands in `s` stands in `trim(s)` too.
pub proof fn lemma_trim_keeps(s: Seq<char>, c: char)
    requires
        !is_space(c),
        s.contains(c),
    ensures
        trim(s).contains(c),
{
    lemma_trim_start_keeps(s, c);
    lemma_trim_end_keeps(trim_start(s), c);
}

proof fn lemma_trim_start_keeps(s: Seq<char>, c: char)
    requires
        !is_space(c),
        s.contains(c),
    ensures
        trim_start(s).contains(c),
    decreases s.len(),
{
    if s.len() > 0 && is_space(s[0]) {
        let at = choose|i: int| 0 <= i < s.len() && s[i] == c;
        assert(s.skip(1)[at - 1] == c);
        lemma_trim_start_keeps(s.skip(1), c);
    }
}

proof fn lemma_trim_end_keeps(s: Seq<char>, c: char)
    requires
        !is_space(c),
        s.contains(c),
    ensures
        trim_end(s).contains(c),
    decreases s.len(),
{
    if s.len() > 0 && is_space(s.last()) {
        let at = choose|i: int| 0 <= i < s.len() && s[i] == c;
        assert(s.drop_last()[at] == c);
        lemma_trim_end_keeps(s.drop_last(), c);
    }
}

/// Whether `c` is whitespace.
pub fn is_whitespace(c: char) -> (r: bool)
    ensures
        r == is_space(c),
{
    let n: u32 = c as u32;
    (0x09 <= n && n <= 0x0D) || n == 0x20 || n == 0x85 || n == 0xA0 || n == 0x1680 || (0x2000 <= n
        && n <= 0x200A) || n == 0x2028 || n == 0x2029 || n == 0x202F || n == 0x205F || n == 0x3000
}

/// The bounds of `chars[lo..hi)` after trimming whitespace at both ends.
pub(crate) fn trim_bounds(chars: &Vec<char>, lo: usize, hi: usize) -> (r: (usize, usize))
    requires
        lo <= hi <= chars@.len(),
    ensures
        lo <= r.0 <= r.1 <= hi,
        chars@.subrange(r.0 as int, r.1 as int) == trim(chars@.subrange(lo as int, hi as int)),
{
    let mut a: usize = lo;
    while a < hi && is_whitespace(chars[a])
        invariant
            lo <= a <= hi <= chars@.len(),
            trim_start(chars@.subrange(lo as int, hi as int)) == trim_start(
                chars@.subrange(a as int, hi as int),
            ),
        decreases hi - a,
    {
        proof {
            let cur = chars@.subrange(a as int, hi as int);
            assert(cur[0] == chars@[a as int]);
            assert(cur.skip(1) =~= chars@.subrange(a + 1, hi as int));
        }
        a = a + 1;
    }
    proof {
        let cur = chars@.subrange(a as int, hi as int);
        if a < hi {
            assert(cur[0] == chars@[a as int]);
        }
        assert(trim_start(cur) == cur);
    }
    let mut b: usize = hi;
    while a < b && is_whitespace(chars[b - 1])
        invariant
            lo <= a <= b <= hi <= chars@.len(),
            trim_end(chars@.subrange(a as int, hi as int)) == trim_end(
                chars@.subrange(a as int, b as int),
            ),
        decreases b - a,
    {
        proof {
            let cur = chars@.subrange(a as int, b as int);
            assert(cur.last() == chars@[b - 1]);
            assert(cur.drop_last() =~= chars@.subrange(a as int, b - 1));
        }
        b = b - 1;
    }
    proof {
        let cur = chars@.subrange(a as int, b as int);
        if a < b {
            assert(cur.last() == chars@[b - 1]);
        }
        assert(trim_end(cur) == cur);
    }
    (a, b)
}

// ---------------------------------------------------------------------------
// Between `&str`, `Vec<char>` and `String`
// ---------------------------------------------------------------------------

/// The characters of `s`, in order.
pub fn chars_of(s: &str) -> (v: Vec<char>)
    ensures
        v@ == s@,
{
    broadcast use vstd::string::axiom_spec_iter;

    let mut v: Vec<char> = Vec::new();
    let chars = s.chars();
    for c in it: chars
        invariant
            it.seq() == s@,
            v@ == s@.take(it.index()),
    {
        v.push(c);
    }
    v
}

/// Appends `chars[lo..hi)` to `out`.
pub(crate) fn push_chars(out: &mut String, chars: &Vec<char>, lo: usize, hi: usize)
    requires
        lo <= hi <= chars@.len(),
    ensures
        final(out)@ == old(out)@ + chars@.subrange(lo as int, hi as int),
{
    let mut i: usize = lo;
    while i < hi
        invariant
            lo <= i <= hi <= chars@.len(),
            out@ == old(out)@ + chars@.subrange(lo as int, i as int),
        decreases hi - i,
    {
        out.push(chars[i]);
        i = i + 1;
        assert(out@ =~= old(out)@ + chars@.subrange(lo as int, i as int));
    }
}

} // verus!
