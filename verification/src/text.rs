//! Conversions between strings and character sequences, and decimal formatting.
//!
//! Every text in this crate is modelled as a `Seq<char>`. Byte offsets into a
//! text are derived from the UTF-8 width of each character.

use vstd::prelude::*;

verus! {

/// `String::push` of the standard library: appends the given character to the
/// end of the string and changes nothing else.
pub assume_specification[ std::string::String::push ](s: &mut std::string::String, ch: char)
    ensures
        final(s)@ == old(s)@.push(ch),
;

/// `char::from_u32` of the standard library: the character with the given
/// code point, or `None` when the value is a surrogate or lies above
/// `0x10FFFF`.
pub assume_specification[ char::from_u32 ](i: u32) -> (r: Option<char>)
    ensures
        r == scalar_of(i as int),
;

/// Whether `v` is a Unicode scalar value: a code point that is no surrogate.
pub open spec fn is_scalar_value(v: int) -> bool {
    (0 <= v <= 0xD7FF) || (0xE000 <= v <= 0x10FFFF)
}

/// The character whose code point is `v`, if `v` is a scalar value.
pub open spec fn scalar_of(v: int) -> Option<char> {
    if is_scalar_value(v) {
        Some(v as char)
    } else {
        None
    }
}

/// Number of bytes that `c` occupies in UTF-8.
pub open spec fn width(c: char) -> int {
    let cp = c as u32;
    if cp <= 0x7F {
        1
    } else if cp <= 0x7FF {
        2
    } else if cp <= 0xFFFF {
        3
    } else {
        4
    }
}

/// Number of bytes that the first `n` characters of `s` occupy in UTF-8.
pub open spec fn offset_of(s: Seq<char>, n: int) -> int
    decreases n,
{
    if n <= 0 || n > s.len() {
        0
    } else {
        offset_of(s, n - 1) + width(s[n - 1])
    }
}

/// Number of bytes that `s` occupies in UTF-8.
pub open spec fn byte_len(s: Seq<char>) -> int {
    offset_of(s, s.len() as int)
}

/// Offsets grow with the number of characters, by one to four bytes each.
pub proof fn lemma_offset_bounds(s: Seq<char>, n: int)
    requires
        0 <= n <= s.len(),
    ensures
        n <= offset_of(s, n) <= 4 * n,
    decreases n,
{
    if n > 0 {
        lemma_offset_bounds(s, n - 1);
    }
}

/// Number of bytes that `c` occupies in UTF-8.
pub fn char_width(c: char) -> (w: usize)
    ensures
        w == width(c),
        1 <= w <= 4,
{
    let cp: u32 = c as u32;
    if cp <= 0x7F {
        1
    } else if cp <= 0x7FF {
        2
    } else if cp <= 0xFFFF {
        3
    } else {
        4
    }
}

/// The characters of `s`, in order.
pub fn chars_of(s: &str) -> (v: Vec<char>)
    ensures
        v@ == s@,
{
    let mut v: Vec<char> = Vec::new();
    for c in it: s.chars()
        invariant
            v@ == it.seq().subrange(0, it.index() as int),
    {
        v.push(c);
    }
    v
}

/// Appends the characters `chars[from..to]` to `out`.
pub fn push_chars(out: &mut String, chars: &Vec<char>, from: usize, to: usize)
    requires
        from <= to <= chars.len(),
    ensures
        final(out)@ == old(out)@ + chars@.subrange(from as int, to as int),
{
    let mut i: usize = from;
    while i < to
        invariant
            from <= i <= to <= chars.len(),
            out@ == old(out)@ + chars@.subrange(from as int, i as int),
        decreases to - i,
    {
        out.push(chars[i]);
        i = i + 1;
        assert(chars@.subrange(from as int, i as int) =~= chars@.subrange(
            from as int,
            i as int - 1,
        ).push(chars@[i as int - 1]));
    }
}

/// The string made of the characters `chars`.
pub fn text_of(chars: &Vec<char>) -> (s: String)
    ensures
        s@ == chars@,
{
    let mut s: String = String::new();
    push_chars(&mut s, chars, 0, chars.len());
    assert(chars@.subrange(0, chars.len() as int) =~= chars@);
    s
}

/// Appends `count` copies of `c` to `out`.
pub fn push_repeated(out: &mut String, c: char, count: usize)
    ensures
        final(out)@ == old(out)@ + repeated(c, count as nat),
{
    let mut i: usize = 0;
    while i < count
        invariant
            i <= count,
            out@ == old(out)@ + repeated(c, i as nat),
        decreases count - i,
    {
        out.push(c);
        i = i + 1;
        assert(repeated(c, i as nat) =~= repeated(c, (i - 1) as nat).push(c));
    }
}

/// The sequence made of `count` copies of `c`.
pub open spec fn repeated(c: char, count: nat) -> Seq<char> {
    Seq::new(count, |i: int| c)
}

/// The character that stands for the decimal digit `d`.
pub open spec fn digit_char(d: int) -> char {
    if d == 0 {
        '0'
    } else if d == 1 {
        '1'
    } else if d == 2 {
        '2'
    } else if d == 3 {
        '3'
    } else if d == 4 {
        '4'
    } else if d == 5 {
        '5'
    } else if d == 6 {
        '6'
    } else if d == 7 {
        '7'
    } else if d == 8 {
        '8'
    } else {
        '9'
    }
}

/// The decimal notation of `n`, without leading zeros.
pub open spec fn decimal(n: nat) -> Seq<char>
    decreases n,
{
    if n < 10 {
        seq![digit_char(n as int)]
    } else {
        decimal(n / 10).push(digit_char((n % 10) as int))
    }
}

/// A decimal notation is never empty.
pub proof fn lemma_decimal_len(n: nat)
    ensures
        decimal(n).len() >= 1,
    decreases n,
{
    if n >= 10 {
        lemma_decimal_len(n / 10);
    }
}

/// A larger number never has a shorter decimal notation.
pub proof fn lemma_decimal_len_monotone(a: nat, b: nat)
    requires
        a <= b,
    ensures
        decimal(a).len() <= decimal(b).len(),
    decreases b,
{
    lemma_decimal_len(a);
    lemma_decimal_len(b);
    if a >= 10 {
        lemma_decimal_len_monotone(a / 10, b / 10);
    }
}

fn digit_of(d: usize) -> (c: char)
    requires
        d < 10,
    ensures
        c == digit_char(d as int),
{
    if d == 0 {
        '0'
    } else if d == 1 {
        '1'
    } else if d == 2 {
        '2'
    } else if d == 3 {
        '3'
    } else if d == 4 {
        '4'
    } else if d == 5 {
        '5'
    } else if d == 6 {
        '6'
    } else if d == 7 {
        '7'
    } else if d == 8 {
        '8'
    } else {
        '9'
    }
}

/// The decimal notation of `n` as a vector of characters.
pub fn decimal_chars(n: usize) -> (v: Vec<char>)
    ensures
        v@ == decimal(n as nat),
    decreases n,
{
    if n < 10 {
        let mut v: Vec<char> = Vec::new();
        v.push(digit_of(n));
        assert(v@ =~= seq![digit_char(n as int)]);
        v
    } else {
        let mut v: Vec<char> = decimal_chars(n / 10);
        v.push(digit_of(n % 10));
        v
    }
}

} // verus!
