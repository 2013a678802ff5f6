//! Character-level building blocks of the wire encoding: decimal rendering of
//! integers, hex rendering of bytes, and the string escaping used inside the
//! canonical message encoding.

use vstd::prelude::*;

verus! {

/// Relies on String::push: appends exactly the given character to the end of
/// the string.
pub assume_specification[ String::push ](s: &mut String, ch: char)
    ensures
        final (s)@ == old(s)@.push(ch),
;

/// Collects the characters of a string slice into a vector.
pub fn chars_of(s: &str) -> (r: Vec<char>)
    ensures
        r@ == s@,
{
    let n: usize = s.unicode_len();
    let mut r: Vec<char> = Vec::new();
    let mut i: usize = 0;
    while i < n
        invariant
            i <= n,
            n == s@.len(),
            r@ == s@.take(i as int),
        decreases n - i,
    {
        r.push(s.get_char(i));
        proof {
            assert(s@.take(i + 1) =~= s@.take(i as int).push(s@[i as int]));
        }
        i = i + 1;
    }
    proof {
        assert(s@.take(n as int) =~= s@);
    }
    r
}

/// Builds a string from a vector of characters.
pub fn string_of(v: &Vec<char>) -> (r: String)
    ensures
        r@ == v@,
{
    let mut r: String = String::new();
    let mut i: usize = 0;
    while i < v.len()
        invariant
            i <= v.len(),
            r@ == v@.take(i as int),
        decreases v.len() - i,
    {
        r.push(v[i]);
        proof {
            assert(v@.take(i + 1) =~= v@.take(i as int).push(v@[i as int]));
        }
        i = i + 1;
    }
    proof {
        assert(v@.take(v@.len() as int) =~= v@);
    }
    r
}


/// Appends the characters of a string slice.
pub fn push_chars(out: &mut Vec<char>, s: &str)
    ensures
        final (out)@ == old(out)@ + s@,
{
    let n: usize = s.unicode_len();
    let mut i: usize = 0;
    while i < n
        invariant
            i <= n,
            n == s@.len(),
            out@ == old(out)@ + s@.take(i as int),
        decreases n - i,
    {
        out.push(s.get_char(i));
        proof {
            assert(old(out)@ + s@.take(i + 1) =~= (old(out)@ + s@.take(i as int)).push(
                s@[i as int],
            ));
        }
        i = i + 1;
    }
    proof {
        assert(s@.take(n as int) =~= s@);
    }
}

/// Whether `c` is a decimal digit.
pub open spec fn is_dec_digit(c: char) -> bool {
    '0' <= c && c <= '9'
}

/// The decimal digit character for a value below ten.
pub open spec fn dec_digit(d: u64) -> char
    recommends
        d < 10,
{
    ((d + 48) as u8) as char
}

/// The numeric value of a decimal digit character.
pub open spec fn dec_val(c: char) -> u64
    recommends
        is_dec_digit(c),
{
    ((c as u32) - 48) as u64
}

/// The canonical decimal rendering of `n`: no sign, no leading zeros.
pub open spec fn dec_of(n: u64) -> Seq<char>
    decreases n,
{
    if n < 10 {
        seq![dec_digit(n)]
    } else {
        dec_of((n / 10) as u64).push(dec_digit(n % 10))
    }
}

/// The lowercase hex digit character for a value below sixteen.
pub open spec fn hex_digit(d: u64) -> char
    recommends
        d < 16,
{
    if d < 10 {
        dec_digit(d)
    } else {
        ((d + 87) as u8) as char
    }
}

/// The two lowercase hex digits of one byte.
pub open spec fn hex_of_byte(b: u8) -> Seq<char> {
    seq![hex_digit((b / 16) as u64), hex_digit((b % 16) as u64)]
}

/// The lowercase hex rendering of a byte sequence.
pub open spec fn hex_of(s: Seq<u8>) -> Seq<char>
    decreases s.len(),
{
    if s.len() == 0 {
        Seq::empty()
    } else {
        hex_of_byte(s[0]) + hex_of(s.drop_first())
    }
}

/// How one character appears inside a canonically encoded string: quote,
/// backslash and control characters are escaped exactly as the standard JSON
/// encoder writes them, everything else stands for itself.
pub open spec fn esc_char(c: char) -> Seq<char> {
    if c == '"' {
        seq!['\\', '"']
    } else if c == '\\' {
        seq!['\\', '\\']
    } else if c == '\u{8}' {
        seq!['\\', 'b']
    } else if c == '\t' {
        seq!['\\', 't']
    } else if c == '\n' {
        seq!['\\', 'n']
    } else if c == '\u{c}' {
        seq!['\\', 'f']
    } else if c == '\r' {
        seq!['\\', 'r']
    } else if (c as u32) < 32 {
        seq!['\\', 'u', '0', '0', hex_digit(((c as u32) / 16) as u64), hex_digit(
            ((c as u32) % 16) as u64,
        )]
    } else {
        seq![c]
    }
}

/// The escaped form of a whole string.
pub open spec fn esc(s: Seq<char>) -> Seq<char>
    decreases s.len(),
{
    if s.len() == 0 {
        Seq::empty()
    } else {
        esc_char(s[0]) + esc(s.drop_first())
    }
}

/// Escaping a single character is exactly its per-character form.
pub proof fn lemma_esc_singleton(c: char)
    ensures
        esc(seq![c]) == esc_char(c),
{
    assert(seq![c].len() == 1);
    assert(seq![c][0] == c);
    assert(seq![c].drop_first() =~= Seq::<char>::empty());
    assert(esc(seq![c]) == esc_char(c) + esc(Seq::<char>::empty()));
    assert(esc(Seq::<char>::empty()) == Seq::<char>::empty());
    assert(esc_char(c) + Seq::<char>::empty() =~= esc_char(c));
}

/// Escaping distributes over concatenation.
pub proof fn lemma_esc_append(a: Seq<char>, b: Seq<char>)
    ensures
        esc(a + b) == esc(a) + esc(b),
    decreases a.len(),
{
    if a.len() == 0 {
        assert(a + b =~= b);
        assert(esc(a) + esc(b) =~= esc(b));
    } else {
        assert((a + b).drop_first() =~= a.drop_first() + b);
        assert((a + b)[0] == a[0]);
        assert((a + b).len() > 0);
        lemma_esc_append(a.drop_first(), b);
        assert(esc(a + b) =~= esc_char(a[0]) + (esc(a.drop_first()) + esc(b)));
        assert(esc_char(a[0]) + (esc(a.drop_first()) + esc(b)) =~= (esc_char(a[0]) + esc(
            a.drop_first(),
        )) + esc(b));
    }
}

/// The decimal digit character for a value below ten, executable form.
pub fn dec_digit_ch(d: u64) -> (c: char)
    requires
        d < 10,
    ensures
        c == dec_digit(d),
{
    ((d + 48) as u8) as char
}

/// The lowercase hex digit character for a value below sixteen, executable form.
pub fn hex_digit_ch(d: u64) -> (c: char)
    requires
        d < 16,
    ensures
        c == hex_digit(d),
{
    if d < 10 {
        ((d + 48) as u8) as char
    } else {
        ((d + 87) as u8) as char
    }
}

/// Appends the canonical decimal rendering of `n`.
pub fn push_dec(out: &mut Vec<char>, n: u64)
    ensures
        final (out)@ == old(out)@ + dec_of(n),
    decreases n,
{
    if n < 10 {
        out.push(dec_digit_ch(n));
        proof {
            assert(old(out)@ + dec_of(n) =~= old(out)@.push(dec_digit(n)));
        }
    } else {
        push_dec(out, n / 10);
        out.push(dec_digit_ch(n % 10));
        proof {
            assert(old(out)@ + dec_of(n) =~= (old(out)@ + dec_of((n / 10) as u64)).push(
                dec_digit(n % 10),
            ));
        }
    }
}

/// Appends the lowercase hex rendering of the bytes.
pub fn push_hex(out: &mut Vec<char>, bytes: &Vec<u8>)
    ensures
        final (out)@ == old(out)@ + hex_of(bytes@),
{
    let mut i: usize = 0;
    while i < bytes.len()
        invariant
            i <= bytes.len(),
            out@ == old(out)@ + hex_of(bytes@.take(i as int)),
        decreases bytes.len() - i,
    {
        let b: u8 = bytes[i];
        out.push(hex_digit_ch((b / 16) as u64));
        out.push(hex_digit_ch((b % 16) as u64));
        proof {
            lemma_hex_append(bytes@.take(i as int), seq![bytes@[i as int]]);
            assert(bytes@.take(i + 1) =~= bytes@.take(i as int) + seq![bytes@[i as int]]);
            assert(seq![bytes@[i as int]].len() == 1);
            assert(seq![bytes@[i as int]].drop_first() =~= Seq::<u8>::empty());
            assert(hex_of(seq![bytes@[i as int]]) == hex_of_byte(bytes@[i as int]) + hex_of(
                Seq::<u8>::empty(),
            ));
            assert(hex_of_byte(bytes@[i as int]) + Seq::<char>::empty() =~= hex_of_byte(
                bytes@[i as int],
            ));
            assert(out@ =~= old(out)@ + hex_of(bytes@.take(i + 1)));
        }
        i = i + 1;
    }
    proof {
        assert(bytes@.take(bytes@.len() as int) =~= bytes@);
    }
}

/// Hex rendering distributes over concatenation.
pub proof fn lemma_hex_append(a: Seq<u8>, b: Seq<u8>)
    ensures
        hex_of(a + b) == hex_of(a) + hex_of(b),
    decreases a.len(),
{
    if a.len() == 0 {
        assert(a + b =~= b);
        assert(hex_of(a) + hex_of(b) =~= hex_of(b));
    } else {
        assert((a + b).drop_first() =~= a.drop_first() + b);
        lemma_hex_append(a.drop_first(), b);
        assert(hex_of(a + b) =~= hex_of_byte(a[0]) + (hex_of(a.drop_first()) + hex_of(b)));
        assert(hex_of_byte(a[0]) + (hex_of(a.drop_first()) + hex_of(b)) =~= (hex_of_byte(a[0])
            + hex_of(a.drop_first())) + hex_of(b));
    }
}

/// Appends the escaped form of one character.
pub fn push_esc_char(out: &mut Vec<char>, c: char)
    ensures
        final (out)@ == old(out)@ + esc_char(c),
{
    if c == '"' {
        out.push('\\');
        out.push('"');
    } else if c == '\\' {
        out.push('\\');
        out.push('\\');
    } else if c == '\u{8}' {
        out.push('\\');
        out.push('b');
    } else if c == '\t' {
        out.push('\\');
        out.push('t');
    } else if c == '\n' {
        out.push('\\');
        out.push('n');
    } else if c == '\u{c}' {
        out.push('\\');
        out.push('f');
    } else if c == '\r' {
        out.push('\\');
        out.push('r');
    } else if (c as u32) < 32 {
        let u: u32 = c as u32;
        out.push('\\');
        out.push('u');
        out.push('0');
        out.push('0');
        out.push(hex_digit_ch((u / 16) as u64));
        out.push(hex_digit_ch((u % 16) as u64));
    } else {
        out.push(c);
    }
    proof {
        assert(out@ =~= old(out)@ + esc_char(c));
    }
}

/// Appends the escaped form of a whole string.
pub fn push_escaped(out: &mut Vec<char>, s: &str)
    ensures
        final (out)@ == old(out)@ + esc(s@),
{
    let n: usize = s.unicode_len();
    let mut i: usize = 0;
    while i < n
        invariant
            i <= n,
            n == s@.len(),
            out@ == old(out)@ + esc(s@.take(i as int)),
        decreases n - i,
    {
        push_esc_char(out, s.get_char(i));
        proof {
            lemma_esc_append(s@.take(i as int), seq![s@[i as int]]);
            lemma_esc_singleton(s@[i as int]);
            assert(s@.take(i + 1) =~= s@.take(i as int) + seq![s@[i as int]]);
            assert(out@ =~= old(out)@ + esc(s@.take(i + 1)));
        }
        i = i + 1;
    }
    proof {
        assert(s@.take(n as int) =~= s@);
    }
}

} // verus!
