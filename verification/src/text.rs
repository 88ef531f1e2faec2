//! Text helpers shared by the calendar codec: characters of strings, decimal
//! numbers, and the escaping of line breaks.

use vstd::prelude::*;

verus! {

/// `String::push` appends one character to the end of the string.
pub assume_specification[ String::push ](s: &mut String, c: char)
    ensures
        final(s)@ == old(s)@.push(c),
;

/// `==` on `str` holds exactly when both sides hold the same characters.
pub assume_specification[ <str as PartialEq>::eq ](a: &str, b: &str) -> (r: bool)
    ensures
        r == (a@ == b@),
;

/// Whether two texts hold the same characters.
pub fn same(a: &str, b: &str) -> (r: bool)
    ensures
        r == (a@ == b@),
{
    *a == *b
}

/// The characters of `s`, in order.
pub fn chars_of(s: &str) -> (v: Vec<char>)
    ensures
        v@ == s@,
{
    broadcast use vstd::string::group_string_axioms;

    let mut v: Vec<char> = Vec::new();
    for c in it: s.chars()
        invariant
            it.seq() == s@,
            v@ == it.seq().take(it.index()),
    {
        v.push(c);
    }
    v
}

/// The string made of the characters of `v`, in order.
pub fn string_of(v: &Vec<char>) -> (s: String)
    ensures
        s@ == v@,
{
    let mut s = String::new();
    let mut i: usize = 0;
    while i < v.len()
        invariant
            i <= v.len(),
            s@ == v@.take(i as int),
        decreases v.len() - i,
    {
        s.push(v[i]);
        i += 1;
    }
    s
}

/// Appends the characters of `s` to `out`.
pub fn push_str(out: &mut Vec<char>, s: &str)
    ensures
        final(out)@ == old(out)@ + s@,
{
    broadcast use vstd::string::group_string_axioms;

    for c in it: s.chars()
        invariant
            it.seq() == s@,
            out@ == old(out)@ + it.seq().take(it.index()),
    {
        out.push(c);
    }
}

/// Appends the characters of `v` to `out`.
pub fn push_chars(out: &mut Vec<char>, v: &Vec<char>)
    ensures
        final(out)@ == old(out)@ + v@,
{
    let mut i: usize = 0;
    while i < v.len()
        invariant
            i <= v.len(),
            out@ == old(out)@ + v@.take(i as int),
        decreases v.len() - i,
    {
        out.push(v[i]);
        i += 1;
    }
}

/// Whether `c` is one of the ten decimal digits.
pub open spec fn is_digit(c: char) -> bool {
    '0' <= c <= '9'
}

/// The number a decimal digit stands for.
pub open spec fn digit_value(c: char) -> int {
    c as int - '0' as int
}

/// The digit that stands for `d`, for `d` below ten.
pub open spec fn digit_char(d: int) -> char {
    (d + '0' as int) as char
}

/// Whether every character of `s` is a decimal digit.
pub open spec fn all_digits(s: Seq<char>) -> bool {
    forall|i: int| 0 <= i < s.len() ==> is_digit(#[trigger] s[i])
}

/// The number that a string of decimal digits denotes, most significant digit
/// first; zero for the empty string.
pub open spec fn digits_value(s: Seq<char>) -> int
    decreases s.len(),
{
    if s.len() == 0 {
        0
    } else {
        10 * digits_value(s.drop_last()) + digit_value(s.last())
    }
}

/// The number that `s` denotes as an unsigned decimal of eight bits: an
/// optional `+`, then one or more digits whose value is at most 255. Leading
/// zeros are allowed; anything else denotes no number.
pub open spec fn byte_of_text(s: Seq<char>) -> Option<u8> {
    let digits = if s.len() > 0 && s[0] == '+' {
        s.drop_first()
    } else {
        s
    };
    if digits.len() > 0 && all_digits(digits) && digits_value(digits) <= 255 {
        Some(digits_value(digits) as u8)
    } else {
        None
    }
}

/// The decimal digits of `n`, without leading zeros.
pub open spec fn decimal_text(n: nat) -> Seq<char>
    decreases n,
{
    if n < 10 {
        seq![digit_char(n as int)]
    } else {
        decimal_text(n / 10).push(digit_char((n % 10) as int))
    }
}

/// A prefix of a digit string denotes no more than the whole string.
pub proof fn lemma_digits_value_prefix(s: Seq<char>, k: int)
    requires
        all_digits(s),
        0 <= k <= s.len(),
    ensures
        0 <= digits_value(s.take(k)) <= digits_value(s),
    decreases s.len() - k,
{
    if k == s.len() {
        assert(s.take(k) == s);
        lemma_digits_value_nonnegative(s);
    } else {
        lemma_digits_value_prefix(s, k + 1);
        assert(s.take(k + 1).drop_last() == s.take(k));
        lemma_digits_value_nonnegative(s.take(k));
    }
}

/// A digit string denotes a number that is not negative.
pub proof fn lemma_digits_value_nonnegative(s: Seq<char>)
    requires
        all_digits(s),
    ensures
        0 <= digits_value(s),
    decreases s.len(),
{
    if s.len() > 0 {
        lemma_digits_value_nonnegative(s.drop_last());
    }
}

/// Reads an unsigned decimal number of eight bits.
pub fn parse_byte(s: &str) -> (r: Option<u8>)
    ensures
        r == byte_of_text(s@),
{
    let chars = chars_of(s);
    let start: usize = if chars.len() > 0 && chars[0] == '+' {
        1
    } else {
        0
    };
    let ghost digits = chars@.skip(start as int);
    proof {
        assert(chars@.skip(0) == chars@);
        assert(chars@.len() > 0 ==> chars@.skip(1) == chars@.drop_first());
    }
    if start == chars.len() {
        return None;
    }
    assert(digits.take(0) == Seq::<char>::empty());
    let mut value: u32 = 0;
    let mut i: usize = start;
    while i < chars.len()
        invariant
            start <= i <= chars.len(),
            digits == chars@.skip(start as int),
            byte_of_text(s@) == if digits.len() > 0 && all_digits(digits) && digits_value(digits)
                <= 255 {
                Some(digits_value(digits) as u8)
            } else {
                None
            },
            all_digits(digits.take(i - start)),
            value == digits_value(digits.take(i - start)),
            value <= 255,
        decreases chars.len() - i,
    {
        let c = chars[i];
        assert(digits[i - start] == c);
        if !('0' <= c && c <= '9') {
            return None;
        }
        let ghost longer = digits.take(i - start + 1);
        assert(longer.drop_last() == digits.take(i - start));
        assert(all_digits(longer)) by {
            assert forall|j: int| 0 <= j < longer.len() implies is_digit(#[trigger] longer[j]) by {
                if j < longer.len() - 1 {
                    assert(longer[j] == digits.take(i - start)[j]);
                }
            }
        }
        value = value * 10 + ((c as u8) - ('0' as u8)) as u32;
        if value > 255 {
            proof {
                if all_digits(digits) {
                    lemma_digits_value_prefix(digits, i - start + 1);
                }
            }
            return None;
        }
        i += 1;
    }
    assert(digits.take(i - start) == digits);
    Some(value as u8)
}

/// Writes `n` in decimal digits, without leading zeros.
pub fn byte_text(n: u8) -> (v: Vec<char>)
    ensures
        v@ == decimal_text(n as nat),
{
    let mut v: Vec<char> = Vec::new();
    if n >= 100 {
        v.push((n / 100 + ('0' as u8)) as char);
    }
    if n >= 10 {
        v.push((n / 10 % 10 + ('0' as u8)) as char);
    }
    v.push((n % 10 + ('0' as u8)) as char);
    proof {
        reveal_with_fuel(decimal_text, 3);
        assert(v@ == decimal_text(n as nat));
    }
    v
}

/// Reading back the decimal digits of a number gives the number.
pub proof fn lemma_decimal_text_value(n: nat)
    ensures
        decimal_text(n).len() > 0,
        all_digits(decimal_text(n)),
        decimal_text(n)[0] != '+',
        digits_value(decimal_text(n)) == n,
    decreases n,
{
    let text = decimal_text(n);
    if n < 10 {
        assert(text.drop_last() == Seq::<char>::empty());
        assert(digits_value(text.drop_last()) == 0);
        assert(digit_value(text.last()) == n);
    } else {
        lemma_decimal_text_value(n / 10);
        let shorter = decimal_text(n / 10);
        assert(text.drop_last() == shorter);
        assert(text[0] == shorter[0]);
        assert(digit_value(text.last()) == n % 10);
        assert forall|j: int| 0 <= j < text.len() implies is_digit(#[trigger] text[j]) by {
            if j < shorter.len() {
                assert(text[j] == shorter[j]);
            }
        }
    }
}

/// What was written as a decimal number of eight bits reads back as that number.
pub proof fn lemma_byte_text_reads_back(n: u8)
    ensures
        byte_of_text(decimal_text(n as nat)) == Some(n),
{
    lemma_decimal_text_value(n as nat);
}

/// `s` with each line break replaced by a backslash and the letter `n`.
pub open spec fn escaped(s: Seq<char>) -> Seq<char>
    decreases s.len(),
{
    if s.len() == 0 {
        Seq::empty()
    } else if s[0] == '\n' {
        seq!['\\', 'n'] + escaped(s.drop_first())
    } else {
        seq![s[0]] + escaped(s.drop_first())
    }
}

/// `s` with each backslash that the letter `n` follows replaced, together
/// with that letter, by a line break, from the left.
pub open spec fn unescaped(s: Seq<char>) -> Seq<char>
    decreases s.len(),
{
    if s.len() == 0 {
        Seq::empty()
    } else if s.len() >= 2 && s[0] == '\\' && s[1] == 'n' {
        seq!['\n'] + unescaped(s.skip(2))
    } else {
        seq![s[0]] + unescaped(s.drop_first())
    }
}

/// Whether somewhere in `s` a backslash stands directly before the letter `n`.
pub open spec fn has_escape(s: Seq<char>) -> bool {
    exists|i: int| 0 <= i < s.len() - 1 && #[trigger] s[i] == '\\' && s[i + 1] == 'n'
}

/// Replaces each line break by a backslash and the letter `n`.
pub fn escape(s: &str) -> (v: Vec<char>)
    ensures
        v@ == escaped(s@),
{
    let chars = chars_of(s);
    let mut v: Vec<char> = Vec::new();
    let mut i: usize = 0;
    proof {
        assert(chars@.skip(0) == s@);
        assert(v@ + escaped(s@) == escaped(s@));
    }
    while i < chars.len()
        invariant
            i <= chars.len(),
            chars@ == s@,
            v@ + escaped(chars@.skip(i as int)) == escaped(s@),
        decreases chars.len() - i,
    {
        let ghost rest = chars@.skip(i as int);
        assert(rest.drop_first() == chars@.skip(i + 1));
        let ghost before = v@;
        if chars[i] == '\n' {
            v.push('\\');
            v.push('n');
            assert(v@ == before + seq!['\\', 'n']);
        } else {
            v.push(chars[i]);
            assert(v@ == before + seq![rest[0]]);
        }
        assert(v@ + escaped(chars@.skip(i + 1)) == before + escaped(rest));
        i += 1;
    }
    assert(v@ + Seq::<char>::empty() == v@);
    v
}

/// Replaces each backslash that the letter `n` follows, together with that
/// letter, by a line break.
pub fn unescape(s: &str) -> (v: Vec<char>)
    ensures
        v@ == unescaped(s@),
{
    let chars = chars_of(s);
    let mut v: Vec<char> = Vec::new();
    let mut i: usize = 0;
    proof {
        assert(chars@.skip(0) == s@);
        assert(v@ + unescaped(s@) == unescaped(s@));
    }
    while i < chars.len()
        invariant
            i <= chars.len(),
            chars@ == s@,
            v@ + unescaped(chars@.skip(i as int)) == unescaped(s@),
        decreases chars.len() - i,
    {
        let ghost rest = chars@.skip(i as int);
        let ghost before = v@;
        if chars[i] == '\\' && i + 1 < chars.len() && chars[i + 1] == 'n' {
            assert(rest.skip(2) == chars@.skip(i + 2));
            v.push('\n');
            assert(v@ == before + seq!['\n']);
            assert(v@ + unescaped(chars@.skip(i + 2)) == before + unescaped(rest));
            i += 2;
        } else {
            assert(rest.drop_first() == chars@.skip(i + 1));
            v.push(chars[i]);
            assert(v@ == before + seq![rest[0]]);
            assert(v@ + unescaped(chars@.skip(i + 1)) == before + unescaped(rest));
            i += 1;
        }
    }
    assert(v@ + Seq::<char>::empty() == v@);
    v
}

/// Escaping the line breaks of a text and undoing it gives the text back,
/// unless the text already held a backslash directly before the letter `n`.
pub proof fn lemma_unescape_escape(s: Seq<char>)
    requires
        !has_escape(s),
    ensures
        unescaped(escaped(s)) == s,
    decreases s.len(),
{
    if s.len() > 0 {
        let rest = s.drop_first();
        assert(!has_escape(rest)) by {
            if has_escape(rest) {
                let i = choose|i: int| 0 <= i < rest.len() - 1 && #[trigger] rest[i] == '\\' && rest[i + 1] == 'n';
                assert(s[i + 1] == '\\' && s[i + 2] == 'n');
            }
        }
        lemma_unescape_escape(rest);
        let tail = escaped(rest);
        if s[0] == '\n' {
            let text = seq!['\\', 'n'] + tail;
            assert(text.skip(2) == tail);
            assert(seq!['\n'] + rest == s);
        } else {
            let text = seq![s[0]] + tail;
            assert(text.drop_first() == tail);
            if s[0] == '\\' && text.len() >= 2 && text[1] == 'n' {
                assert(rest.len() > 0);
                assert(rest[0] == 'n') by {
                    if rest[0] == '\n' {
                        assert(tail[0] == '\\');
                    } else {
                        assert(tail[0] == rest[0]);
                    }
                }
                assert(s[0int] == '\\' && s[0int + 1] == 'n');
                assert(false);
            }
            assert(seq![s[0]] + rest == s);
        }
    }
}

} // verus!
