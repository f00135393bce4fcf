//! Character-level helpers shared by the SQL renderers: appending single
//! characters, decimal rendering of integers and dropping characters.
use vstd::prelude::*;

use crate::mysql_types::{digits_value, is_digit_byte, mysql_u32_from_text};

verus! {

/// `String::push` appends one character at the end of the string.
pub assume_specification[ String::push ](s: &mut String, ch: char)
    ensures
        final(s)@ == old(s)@.push(ch),
;

/// `String::pop` removes the last character, if there is one, and returns it.
pub assume_specification[ String::pop ](s: &mut String) -> (r: Option<char>)
    ensures
        old(s)@.len() == 0 ==> r is None && final(s)@ == old(s)@,
        old(s)@.len() > 0 ==> r == Some(old(s)@.last()) && final(s)@ == old(s)@.drop_last(),
;

/// The character of a decimal digit.
pub open spec fn digit_char(d: nat) -> char {
    if d == 0 { '0' }
    else if d == 1 { '1' }
    else if d == 2 { '2' }
    else if d == 3 { '3' }
    else if d == 4 { '4' }
    else if d == 5 { '5' }
    else if d == 6 { '6' }
    else if d == 7 { '7' }
    else if d == 8 { '8' }
    else { '9' }
}

/// The decimal rendering of a natural number, without sign or leading zeros
/// (`0` renders as `"0"`), as `Display` prints unsigned integers.
pub open spec fn decimal(n: nat) -> Seq<char>
    decreases n,
{
    if n < 10 {
        seq![digit_char(n)]
    } else {
        decimal(n / 10).push(digit_char(n % 10))
    }
}

/// The string without any occurrence of `c`.
pub open spec fn without_char(s: Seq<char>, c: char) -> Seq<char>
    decreases s.len(),
{
    if s.len() == 0 {
        s
    } else if s.last() == c {
        without_char(s.drop_last(), c)
    } else {
        without_char(s.drop_last(), c).push(s.last())
    }
}

/// The string without its last character; the empty string stays empty.
pub open spec fn drop_last_char(s: Seq<char>) -> Seq<char> {
    if s.len() == 0 { s } else { s.drop_last() }
}

fn digit(d: u64) -> (c: char)
    requires
        d < 10,
    ensures
        c == digit_char(d as nat),
        c as u32 == 0x30 + d,
{
    if d == 0 { '0' }
    else if d == 1 { '1' }
    else if d == 2 { '2' }
    else if d == 3 { '3' }
    else if d == 4 { '4' }
    else if d == 5 { '5' }
    else if d == 6 { '6' }
    else if d == 7 { '7' }
    else if d == 8 { '8' }
    else { '9' }
}

/// Appends the decimal rendering of `n` to `s`.
pub fn push_decimal(s: &mut String, n: u64)
    ensures
        final(s)@ == old(s)@ + decimal(n as nat),
    decreases n,
{
    if n >= 10 {
        push_decimal(s, n / 10);
    }
    let c = digit(n % 10);
    s.push(c);
    assert(final(s)@ =~= old(s)@ + decimal(n as nat));
}

/// Appends `t` to `s`, leaving out every occurrence of `c`.
pub fn push_without_char(s: &mut String, t: &str, c: char)
    ensures
        final(s)@ == old(s)@ + without_char(t@, c),
{
    let n = t.unicode_len();
    let mut i: usize = 0;
    while i < n
        invariant
            n == t@.len(),
            i <= n,
            s@ == old(s)@ + without_char(t@.subrange(0, i as int), c),
        decreases n - i,
    {
        let ch = t.get_char(i);
        assert(t@.subrange(0, i + 1).drop_last() =~= t@.subrange(0, i as int));
        if ch != c {
            s.push(ch);
        }
        i = i + 1;
        assert(s@ =~= old(s)@ + without_char(t@.subrange(0, i as int), c));
    }
    assert(t@.subrange(0, n as int) =~= t@);
}

/// The code of each character of a text, as a byte.
pub open spec fn char_codes(s: Seq<char>) -> Seq<u8> {
    s.map_values(|c: char| c as u8)
}

/// Each digit renders as the character whose code is `0x30` plus the digit.
pub proof fn lemma_digit_char_code(d: nat)
    requires
        d < 10,
    ensures
        digit_char(d) as u32 == 0x30 + d,
{
}

/// The decimal text of a number is a non-empty run of ASCII digits, with no
/// leading zero unless the number is zero, that reads back as the number.
pub proof fn lemma_decimal_reads_back(n: nat)
    ensures
        decimal(n).len() >= 1,
        forall|i: int| 0 <= i < decimal(n).len() ==> #[trigger] is_digit_byte(char_codes(decimal(n))[i]),
        digits_value(char_codes(decimal(n))) == n,
        decimal(n)[0] == '0' ==> n == 0,
    decreases n,
{
    let t = decimal(n);
    let b = char_codes(t);
    if n < 10 {
        lemma_digit_char_code(n);
        assert(b.drop_last() =~= Seq::<u8>::empty());
        assert(digits_value(b.drop_last()) == 0);
        assert(b.last() == (0x30 + n) as u8);
        assert(digits_value(b) == digits_value(b.drop_last()) * 10 + (b.last() - 0x30) as nat);
    } else {
        let q = n / 10;
        let r = n % 10;
        lemma_decimal_reads_back(q);
        lemma_digit_char_code(r);
        vstd::arithmetic::div_mod::lemma_fundamental_div_mod(n as int, 10);
        let pb = char_codes(decimal(q));
        assert(b.drop_last() =~= pb);
        assert(b.last() == (0x30 + r) as u8);
        assert(digits_value(b) == digits_value(b.drop_last()) * 10 + (b.last() - 0x30) as nat);
        assert(digits_value(pb) * 10 + r == n);
        assert forall|i: int| 0 <= i < t.len() implies #[trigger] is_digit_byte(b[i]) by {
            if i < t.len() - 1 {
                assert(b[i] == pb[i]);
            }
        }
        assert(t[0] == decimal(q)[0]);
    }
}

/// The decimal text of a `u32`, read by the `u32` text conversion, gives the
/// number back.
pub proof fn lemma_u32_text_round_trip(x: u32)
    ensures
        mysql_u32_from_text(char_codes(decimal(x as nat))) == Some(x),
{
    lemma_decimal_reads_back(x as nat);
    let b = char_codes(decimal(x as nat));
    assert(is_digit_byte(b[0]));
}

/// Leaving out `c` keeps every other character in order: it is the text
/// filtered by `ch != c`.
pub proof fn lemma_without_char_filters(s: Seq<char>, c: char)
    ensures
        without_char(s, c) == s.filter(|ch: char| ch != c),
    decreases s.len(),
{
    reveal(Seq::filter);
    let pred = |ch: char| ch != c;
    if s.len() > 0 {
        lemma_without_char_filters(s.drop_last(), c);
        assert(s.filter(pred) == if pred(s.last()) {
            s.drop_last().filter(pred).push(s.last())
        } else {
            s.drop_last().filter(pred)
        });
    }
}

/// A text that does not hold `c` is unchanged; the result never holds `c`.
pub proof fn lemma_without_char_keeps(s: Seq<char>, c: char)
    ensures
        !s.contains(c) ==> without_char(s, c) == s,
        !without_char(s, c).contains(c),
    decreases s.len(),
{
    if s.len() > 0 {
        lemma_without_char_keeps(s.drop_last(), c);
        if !s.contains(c) {
            assert(!s.drop_last().contains(c)) by {
                if s.drop_last().contains(c) {
                    let k = choose|k: int| 0 <= k < s.drop_last().len() && s.drop_last()[k] == c;
                    assert(s[k] == c);
                }
            }
            assert(s.last() == s[s.len() - 1]);
            assert(s.drop_last().push(s.last()) =~= s);
        }
        let w = without_char(s, c);
        let p = without_char(s.drop_last(), c);
        if w.contains(c) {
            let k = choose|k: int| 0 <= k < w.len() && w[k] == c;
            if s.last() != c && k == w.len() - 1 {
                assert(w[k] == s.last());
            } else {
                assert(p[k] == c);
            }
        }
    }
}

} // verus!
