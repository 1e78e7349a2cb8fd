//! IPv4 addresses: four octets, their 32-bit value, and dotted-decimal text.

use crate::text::{
    all_digits, chars_of, decimal, decimal_value, digit_of, digit_run, is_canonical, is_digit,
    lemma_canonical_is_decimal, lemma_decimal_round_trip, lemma_decimal_small,
    lemma_decimal_value_push, lemma_digit_run_is, lemma_digit_run_props, push_decimal,
};
use vstd::prelude::*;

verus! {

/// An IPv4 address `a.b.c.d`.
///
/// Addresses are ordered by their 32-bit value, which is also the order of
/// the octets read left to right.
#[derive(Clone, Copy, Debug, PartialEq, Eq, Structural, PartialOrd, Ord, Hash)]
pub struct Ipv4Addr {
    pub a: u8,
    pub b: u8,
    pub c: u8,
    pub d: u8,
}

impl Ipv4Addr {
    /// The address as a 32-bit number, first octet most significant.
    pub open spec fn bits(self) -> nat {
        (self.a as nat) * 0x100_0000 + (self.b as nat) * 0x1_0000 + (self.c as nat) * 0x100
            + self.d as nat
    }

    /// The address with the 32-bit value `n`.
    pub open spec fn of_bits(n: nat) -> Ipv4Addr
        recommends
            n <= u32::MAX,
    {
        Ipv4Addr {
            a: (n / 0x100_0000) as u8,
            b: ((n / 0x1_0000) % 0x100) as u8,
            c: ((n / 0x100) % 0x100) as u8,
            d: (n % 0x100) as u8,
        }
    }

    /// The dotted-decimal text of the address: four decimal numerals without
    /// leading zeros, separated by dots.
    pub open spec fn text(self) -> Seq<char> {
        decimal(self.a as nat) + seq!['.'] + decimal(self.b as nat) + seq!['.'] + decimal(
            self.c as nat,
        ) + seq!['.'] + decimal(self.d as nat)
    }

    /// The address that the dotted-decimal text `s` spells, if it spells
    /// one.
    pub open spec fn of_text(s: Seq<char>) -> Option<Ipv4Addr> {
        if exists|ip: Ipv4Addr| ip.text() == s {
            Some(choose|ip: Ipv4Addr| ip.text() == s)
        } else {
            None
        }
    }

    /// The address `a.b.c.d`.
    pub fn new(a: u8, b: u8, c: u8, d: u8) -> (ip: Ipv4Addr)
        ensures
            ip == (Ipv4Addr { a, b, c, d }),
    {
        Ipv4Addr { a, b, c, d }
    }

    /// The four octets, first to last.
    pub fn octets(&self) -> (o: [u8; 4])
        ensures
            o@ == seq![self.a, self.b, self.c, self.d],
    {
        let o = [self.a, self.b, self.c, self.d];
        assert(o@ =~= seq![self.a, self.b, self.c, self.d]);
        o
    }

    /// The address as a 32-bit number.
    pub fn to_bits(&self) -> (n: u32)
        ensures
            n == self.bits(),
    {
        let a: u32 = self.a as u32;
        let b: u32 = self.b as u32;
        let c: u32 = self.c as u32;
        let d: u32 = self.d as u32;
        a * 0x100_0000 + b * 0x1_0000 + c * 0x100 + d
    }

    /// The address with the 32-bit value `n`.
    pub fn from_bits(n: u32) -> (ip: Ipv4Addr)
        ensures
            ip == Ipv4Addr::of_bits(n as nat),
            ip.bits() == n,
    {
        proof {
            lemma_bits_cover(n as nat);
        }
        Ipv4Addr {
            a: (n / 0x100_0000) as u8,
            b: ((n / 0x1_0000) % 0x100) as u8,
            c: ((n / 0x100) % 0x100) as u8,
            d: (n % 0x100) as u8,
        }
    }

    /// Whether `self` comes strictly before `other`.
    pub fn precedes(&self, other: &Ipv4Addr) -> (r: bool)
        ensures
            r == (self.bits() < other.bits()),
    {
        self.to_bits() < other.to_bits()
    }

    /// The dotted-decimal text of the address.
    pub fn to_string(&self) -> (s: String)
        ensures
            s@ == self.text(),
    {
        let mut s = String::new();
        self.push_text(&mut s);
        s
    }

    /// Appends the dotted-decimal text of the address to `out`.
    pub fn push_text(&self, out: &mut String)
        ensures
            final(out)@ == old(out)@ + self.text(),
    {
        push_decimal(out, self.a as u32);
        out.push('.');
        push_decimal(out, self.b as u32);
        out.push('.');
        push_decimal(out, self.c as u32);
        out.push('.');
        push_decimal(out, self.d as u32);
        assert(out@ =~= old(out)@ + self.text());
    }

    /// Reads an address from dotted-decimal text.
    ///
    /// Returns the address whose text `s` is, and `None` when `s` is the
    /// text of no address: on a missing or extra field, an empty field, a
    /// sign, a space, a leading zero, or a field above 255.
    pub fn parse(s: &str) -> (r: Option<Ipv4Addr>)
        ensures
            r matches Some(ip) ==> ip.text() == s@,
            r is None ==> forall|ip: Ipv4Addr| ip.text() != s@,
            r == Ipv4Addr::of_text(s@),
    {
        let chars = chars_of(s);
        let r = Ipv4Addr::parse_chars(&chars, 0, chars.len());
        assert(chars@.subrange(0, chars@.len() as int) =~= s@);
        r
    }

    /// Reads an address from the characters `chars[lo..hi)`.
    pub(crate) fn parse_chars(chars: &Vec<char>, lo: usize, hi: usize) -> (r: Option<Ipv4Addr>)
        requires
            lo <= hi <= chars@.len(),
        ensures
            r matches Some(ip) ==> ip.text() == chars@.subrange(lo as int, hi as int),
            r is None ==> forall|ip: Ipv4Addr| ip.text() != chars@.subrange(lo as int, hi as int),
            r == Ipv4Addr::of_text(chars@.subrange(lo as int, hi as int)),
    {
        let ghost s = chars@.subrange(lo as int, hi as int);
        let r = parse_fields(chars, lo, hi);
        proof {
            match r {
                Some(ip) => {
                    lemma_grammar_sound(s);
                    lemma_text_injective(ip, Ipv4Addr::of_text(s)->0);
                },
                None => {
                    assert forall|ip: Ipv4Addr| ip.text() != s by {
                        lemma_grammar_complete(ip);
                    }
                },
            }
        }
        r
    }
}

/// The octet whose numeral starts `s`, with the numeral's length: the digits
/// at the head of `s`, if they spell a number up to 255 without a leading
/// zero.
#[verifier::opaque]
spec fn lead_octet(s: Seq<char>) -> Option<(u8, nat)> {
    let n = digit_run(s);
    let run = s.take(n as int);
    if is_canonical(run) && n <= 3 && decimal_value(run) <= 255 {
        Some((decimal_value(run) as u8, n))
    } else {
        None
    }
}

/// What follows an octet numeral of length `n` and a dot, if a dot does
/// follow.
#[verifier::opaque]
spec fn after_dot(s: Seq<char>, n: nat) -> Option<Seq<char>> {
    if n < s.len() && s[n as int] == '.' {
        Some(s.skip(n as int + 1))
    } else {
        None
    }
}

/// The grammar of dotted-decimal text, read left to right: an octet, a dot,
/// an octet, a dot, an octet, a dot, an octet, and nothing more.
spec fn grammar(s: Seq<char>) -> Option<Ipv4Addr> {
    match lead_octet(s) {
        None => None,
        Some((a, na)) => match after_dot(s, na) {
            None => None,
            Some(s1) => match lead_octet(s1) {
                None => None,
                Some((b, nb)) => match after_dot(s1, nb) {
                    None => None,
                    Some(s2) => match lead_octet(s2) {
                        None => None,
                        Some((c, nc)) => match after_dot(s2, nc) {
                            None => None,
                            Some(s3) => match lead_octet(s3) {
                                None => None,
                                Some((d, nd)) => if nd == s3.len() {
                                    Some(Ipv4Addr { a, b, c, d })
                                } else {
                                    None
                                },
                            },
                        },
                    },
                },
            },
        },
    }
}

/// A numeral that `lead_octet` accepts is the numeral of the octet it gives.
proof fn lemma_lead_octet_sound(s: Seq<char>)
    requires
        lead_octet(s) is Some,
    ensures
        ({
            let (v, n) = lead_octet(s)->0;
            &&& n <= s.len()
            &&& s.take(n as int) == decimal(v as nat)
        }),
{
    reveal(lead_octet);
    lemma_digit_run_props(s);
    let n = digit_run(s);
    lemma_canonical_is_decimal(s.take(n as int));
}

/// The numeral of an octet, followed by anything that does not start with a
/// digit, is read back as that octet.
proof fn lemma_lead_octet_complete(v: u8, rest: Seq<char>)
    requires
        rest.len() == 0 || !is_digit(rest[0]),
    ensures
        lead_octet(decimal(v as nat) + rest) == Some((v, decimal(v as nat).len())),
{
    reveal(lead_octet);
    let num = decimal(v as nat);
    let s = num + rest;
    lemma_decimal_round_trip(v as nat);
    lemma_decimal_small(v as nat);
    assert forall|i: int| 0 <= i < num.len() implies is_digit(#[trigger] s[i]) by {
        assert(s[i] == num[i]);
    }
    if num.len() < s.len() {
        assert(s[num.len() as int] == rest[0]);
    }
    lemma_digit_run_is(s, num.len());
    assert(s.take(num.len() as int) =~= num);
}

/// An octet numeral and the dot after it, followed by the rest, make up the
/// text they were read from.
proof fn lemma_field_sound(s: Seq<char>)
    requires
        lead_octet(s) matches Some((v, n)) && after_dot(s, n) is Some,
    ensures
        lead_octet(s) matches Some((v, n)) && after_dot(s, n) matches Some(rest) && s == decimal(
            v as nat,
        ) + seq!['.'] + rest,
{
    reveal(after_dot);
    let (v, n) = lead_octet(s)->0;
    lemma_lead_octet_sound(s);
    let rest = after_dot(s, n)->0;
    assert(s =~= s.take(n as int) + seq!['.'] + rest);
}

/// Four numerals joined by dots, built from the right, are the text of the
/// address with those octets.
proof fn lemma_text_assembly(ip: Ipv4Addr, s: Seq<char>, s1: Seq<char>, s2: Seq<char>)
    requires
        s == decimal(ip.a as nat) + seq!['.'] + s1,
        s1 == decimal(ip.b as nat) + seq!['.'] + s2,
        s2 == decimal(ip.c as nat) + seq!['.'] + decimal(ip.d as nat),
    ensures
        s == ip.text(),
{
    assert(s =~= ip.text());
}

/// Text that the grammar accepts is the text of the address it gives.
proof fn lemma_grammar_sound(s: Seq<char>)
    requires
        grammar(s) is Some,
    ensures
        grammar(s)->0.text() == s,
{
    let ip = grammar(s)->0;
    let (a, na) = lead_octet(s)->0;
    let s1 = after_dot(s, na)->0;
    let (b, nb) = lead_octet(s1)->0;
    let s2 = after_dot(s1, nb)->0;
    let (c, nc) = lead_octet(s2)->0;
    let s3 = after_dot(s2, nc)->0;
    let (d, nd) = lead_octet(s3)->0;
    assert(ip == Ipv4Addr { a, b, c, d });
    lemma_field_sound(s);
    lemma_field_sound(s1);
    lemma_field_sound(s2);
    lemma_lead_octet_sound(s3);
    assert(s3 =~= decimal(d as nat));
    lemma_text_assembly(ip, s, s1, s2);
}

/// The numeral of an octet, a dot and any text are read back as that octet
/// followed by that text.
proof fn lemma_field_complete(v: u8, rest: Seq<char>)
    ensures
        lead_octet(decimal(v as nat) + seq!['.'] + rest) == Some((v, decimal(v as nat).len())),
        after_dot(decimal(v as nat) + seq!['.'] + rest, decimal(v as nat).len()) == Some(rest),
{
    reveal(after_dot);
    let num = decimal(v as nat);
    let tail = seq!['.'] + rest;
    let s = num + seq!['.'] + rest;
    assert(tail[0] == '.');
    lemma_lead_octet_complete(v, tail);
    assert(s =~= num + tail);
    assert(s[num.len() as int] == '.');
    assert(s.skip(num.len() as int + 1) =~= rest);
}

/// The text of an address is accepted by the grammar, which gives the
/// address back.
proof fn lemma_grammar_complete(ip: Ipv4Addr)
    ensures
        grammar(ip.text()) == Some(ip),
{
    let dot = seq!['.'];
    let ta = decimal(ip.a as nat);
    let tb = decimal(ip.b as nat);
    let tc = decimal(ip.c as nat);
    let s3 = decimal(ip.d as nat);
    let s2 = tc + dot + s3;
    let s1 = tb + dot + s2;
    let s = ta + dot + s1;
    assert(s =~= ip.text());
    lemma_field_complete(ip.a, s1);
    lemma_field_complete(ip.b, s2);
    lemma_field_complete(ip.c, s3);
    lemma_lead_octet_complete(ip.d, Seq::<char>::empty());
    assert(s3 + Seq::<char>::empty() =~= s3);
}

/// The text of an address holds digits and dots and nothing else.
pub proof fn lemma_text_is_digits_and_dots(ip: Ipv4Addr)
    ensures
        forall|i: int|
            0 <= i < ip.text().len() ==> is_digit(#[trigger] ip.text()[i]) || ip.text()[i] == '.',
{
    lemma_decimal_round_trip(ip.a as nat);
    lemma_decimal_round_trip(ip.b as nat);
    lemma_decimal_round_trip(ip.c as nat);
    lemma_decimal_round_trip(ip.d as nat);
}

/// Reading the text of an address gives the address back.
pub proof fn lemma_text_round_trip(ip: Ipv4Addr)
    ensures
        Ipv4Addr::of_text(ip.text()) == Some(ip),
{
    lemma_text_injective(ip, Ipv4Addr::of_text(ip.text())->0);
}

/// Two addresses with the same text are the same address.
pub proof fn lemma_text_injective(x: Ipv4Addr, y: Ipv4Addr)
    requires
        x.text() == y.text(),
    ensures
        x == y,
{
    lemma_grammar_complete(x);
    lemma_grammar_complete(y);
}

/// The 32-bit value determines the address.
pub proof fn lemma_bits_determine(ip: Ipv4Addr)
    ensures
        ip.bits() <= u32::MAX,
        Ipv4Addr::of_bits(ip.bits()) == ip,
{
    let n = ip.bits();
    let low = (ip.c as nat) * 0x100 + ip.d as nat;
    let mid = (ip.b as nat) * 0x1_0000 + low;
    assert(n == (ip.a as nat) * 0x100_0000 + mid);
    assert(n / 0x100_0000 == ip.a as nat);
    assert(n / 0x1_0000 == (ip.a as nat) * 0x100 + ip.b as nat);
    assert(n / 0x100 == ((ip.a as nat) * 0x100 + ip.b as nat) * 0x100 + ip.c as nat);
}

/// Every 32-bit value is the value of an address.
pub proof fn lemma_bits_cover(n: nat)
    requires
        n <= u32::MAX,
    ensures
        Ipv4Addr::of_bits(n).bits() == n,
{
    let q1 = n / 0x100;
    let q2 = q1 / 0x100;
    let q3 = q2 / 0x100;
    assert(n == q1 * 0x100 + n % 0x100);
    assert(q1 == q2 * 0x100 + q1 % 0x100);
    assert(q2 == q3 * 0x100 + q2 % 0x100);
    assert(q2 == n / 0x1_0000);
    assert(q3 == n / 0x100_0000);
    assert(q3 < 0x100);
}

/// Addresses are ordered as their octets are, read left to right.
pub proof fn lemma_bits_order(x: Ipv4Addr, y: Ipv4Addr)
    ensures
        x.bits() < y.bits() <==> (x.a < y.a || (x.a == y.a && (x.b < y.b || (x.b == y.b && (x.c
            < y.c || (x.c == y.c && x.d < y.d)))))),
        x.bits() == y.bits() <==> x == y,
{
}

/// Reads one octet numeral at `chars[pos..hi)`; gives the octet and the
/// position after the numeral.
fn read_octet(chars: &Vec<char>, pos: usize, hi: usize) -> (r: Option<(u8, usize)>)
    requires
        pos <= hi <= chars@.len(),
    ensures
        match lead_octet(chars@.subrange(pos as int, hi as int)) {
            Some((v, n)) => r == Some((v, (pos + n) as usize)) && pos + n <= hi,
            None => r is None,
        },
{
    reveal(lead_octet);
    let ghost s = chars@.subrange(pos as int, hi as int);
    let mut j: usize = pos;
    let mut value: u32 = 0;
    loop
        invariant_except_break
            pos <= j <= hi <= chars@.len(),
            j - pos <= 3,
            s == chars@.subrange(pos as int, hi as int),
            forall|i: int| 0 <= i < j - pos ==> is_digit(#[trigger] s[i]),
            value == decimal_value(s.take(j - pos)),
            value < 1000,
        ensures
            pos <= j <= hi,
            j - pos <= 3,
            digit_run(s) == j - pos,
            all_digits(s.take(j - pos)),
            value == decimal_value(s.take(j - pos)),
        decreases hi - j,
    {
        if j >= hi {
            proof {
                lemma_digit_run_is(s, (j - pos) as nat);
            }
            break ;
        }
        let digit = digit_of(chars[j]);
        assert(s[j - pos] == chars@[j as int]);
        match digit {
            None => {
                proof {
                    lemma_digit_run_is(s, (j - pos) as nat);
                }
                break ;
            },
            Some(d) => {
                if j - pos == 3 {
                    proof {
                        reveal(lead_octet);
                        lemma_digit_run_props(s);
                        // Four digits in a row: the run is longer than any octet numeral.
                        if digit_run(s) <= 3 {
                            assert(is_digit(s[digit_run(s) as int]));
                        }
                    }
                    return None;
                }
                proof {
                    let before = s.take(j - pos);
                    lemma_decimal_value_push(before, s[j - pos]);
                    assert(before.push(s[j - pos]) =~= s.take(j - pos + 1));
                    // value < 100 here, as at most two digits were read
                    lemma_three_digits_bound(before);
                }
                value = value * 10 + d as u32;
                j = j + 1;
                proof {
                    lemma_three_digits_bound(s.take(j - pos));
                }
            },
        }
    }
    let n = j - pos;
    if n == 0 {
        return None;
    }
    assert(s[0] == chars@[pos as int]);
    assert(s.take(n as int)[0] == s[0]);
    if n > 1 && chars[pos] == '0' {
        return None;
    }
    if value > 255 {
        return None;
    }
    Some((value as u8, j))
}

/// A string of up to three digits denotes a number below ten to the power of
/// its length.
proof fn lemma_three_digits_bound(s: Seq<char>)
    requires
        all_digits(s),
        s.len() <= 3,
    ensures
        s.len() == 0 ==> decimal_value(s) == 0,
        s.len() == 1 ==> decimal_value(s) < 10,
        s.len() == 2 ==> decimal_value(s) < 100,
        s.len() == 3 ==> decimal_value(s) < 1000,
    decreases s.len(),
{
    if s.len() > 0 {
        let head = s.drop_last();
        assert forall|i: int| 0 <= i < head.len() implies is_digit(#[trigger] head[i]) by {
            assert(head[i] == s[i]);
        }
        lemma_three_digits_bound(head);
    }
}

/// Whether a dot stands at `chars[pos]`, before `hi`.
fn dot_at(chars: &Vec<char>, lo: usize, pos: usize, hi: usize) -> (r: bool)
    requires
        lo <= pos <= hi <= chars@.len(),
    ensures
        r == (after_dot(chars@.subrange(lo as int, hi as int), (pos - lo) as nat) is Some),
        r ==> pos < hi && after_dot(chars@.subrange(lo as int, hi as int), (pos - lo) as nat)
            == Some(chars@.subrange(pos + 1, hi as int)),
{
    reveal(after_dot);
    let ghost s = chars@.subrange(lo as int, hi as int);
    if pos < hi && chars[pos] == '.' {
        assert(s[pos - lo] == chars@[pos as int]);
        assert(s.skip(pos - lo + 1) =~= chars@.subrange(pos + 1, hi as int));
        true
    } else {
        if pos < hi {
            assert(s[pos - lo] == chars@[pos as int]);
        }
        false
    }
}

/// Reads `chars[lo..hi)` by the grammar.
fn parse_fields(chars: &Vec<char>, lo: usize, hi: usize) -> (r: Option<Ipv4Addr>)
    requires
        lo <= hi <= chars@.len(),
    ensures
        r == grammar(chars@.subrange(lo as int, hi as int)),
{
    let (a, after_a) = match read_octet(chars, lo, hi) {
        None => { return None; },
        Some(x) => x,
    };
    if !dot_at(chars, lo, after_a, hi) {
        return None;
    }
    let (b, after_b) = match read_octet(chars, after_a + 1, hi) {
        None => { return None; },
        Some(x) => x,
    };
    if !dot_at(chars, after_a + 1, after_b, hi) {
        return None;
    }
    let (c, after_c) = match read_octet(chars, after_b + 1, hi) {
        None => { return None; },
        Some(x) => x,
    };
    if !dot_at(chars, after_b + 1, after_c, hi) {
        return None;
    }
    let (d, after_d) = match read_octet(chars, after_c + 1, hi) {
        None => { return None; },
        Some(x) => x,
    };
    if after_d != hi {
        return None;
    }
    Some(Ipv4Addr { a, b, c, d })
}

} // verus!
