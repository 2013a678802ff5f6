//! Canonical wire encoding of the protocol messages.
//!
//! Every message is a JSON text in one fixed shape: fields in declaration
//! order, no whitespace, strings escaped exactly as the standard encoder
//! writes them. The byte-for-byte encoding of a trade contract is the trade's
//! matching key, so the encoder is exact and the parser accepts precisely the
//! canonical form: what it accepts is what the encoder would have produced.

use vstd::prelude::*;
use crate::textenc::{
    esc, esc_char, dec_of, dec_digit, is_dec_digit, dec_val, hex_digit, lemma_esc_append,
    lemma_esc_singleton,
};

verus! {

broadcast use vstd::utf8::char_is_scalar, vstd::utf8::char_u32_cast;

/// Whether `lit` occurs in `v` at position `i`.
pub open spec fn lit_at(v: Seq<char>, i: int, lit: Seq<char>) -> bool {
    &&& 0 <= i
    &&& i + lit.len() <= v.len()
    &&& v.subrange(i, i + lit.len()) == lit
}

/// The single closing quote of an encoded string.
pub open spec fn quote_seq() -> Seq<char> {
    seq!['"']
}

/// Characters that the escaper does not pass through raw.
pub open spec fn is_escaped_char(c: char) -> bool {
    c == '"' || c == '\\' || (c as u32) < 32
}

/// An escaped character's form starts with a backslash, and no form starts
/// with a quote.
pub proof fn lemma_esc_char_head(c: char)
    ensures
        esc_char(c).len() >= 1,
        esc_char(c)[0] != '"',
        is_escaped_char(c) ==> esc_char(c)[0] == '\\',
        !is_escaped_char(c) ==> esc_char(c)[0] == c,
{
}

/// Whether `c` is a lowercase hex digit.
pub open spec fn is_lhex_digit(c: char) -> bool {
    is_dec_digit(c) || ('a' <= c && c <= 'f')
}

/// The numeric value of a lowercase hex digit.
pub open spec fn lhex_val(c: char) -> int
    recommends
        is_lhex_digit(c),
{
    if is_dec_digit(c) {
        (c as u32) - 48
    } else {
        (c as u32) - 87
    }
}

/// Whether the low control character `u` has a short escape code of its own.
pub open spec fn has_short_code(u: int) -> bool {
    u == 8 || u == 9 || u == 10 || u == 12 || u == 13
}

/// Glues one decoded character onto the front of a scan result.
pub open spec fn scan_cons(c: char, rest: Option<(Seq<char>, int)>) -> Option<(Seq<char>, int)> {
    match rest {
        Some((t, j)) => Some((seq![c] + t, j)),
        None => None,
    }
}

/// Scans an encoded string body starting at `i`: decodes escapes up to the
/// first closing quote, and yields the decoded text together with the
/// position just past that quote. Rejects everything the canonical encoder
/// never writes.
#[verifier::opaque]
pub open spec fn scan_jstr(v: Seq<char>, i: int) -> Option<(Seq<char>, int)>
    decreases v.len() - i,
{
    if i < 0 || i >= v.len() {
        None
    } else if v[i] == '"' {
        Some((Seq::empty(), i + 1))
    } else if v[i] == '\\' {
        if i + 1 >= v.len() {
            None
        } else if v[i + 1] == '"' {
            scan_cons('"', scan_jstr(v, i + 2))
        } else if v[i + 1] == '\\' {
            scan_cons('\\', scan_jstr(v, i + 2))
        } else if v[i + 1] == 'b' {
            scan_cons('\u{8}', scan_jstr(v, i + 2))
        } else if v[i + 1] == 't' {
            scan_cons('\t', scan_jstr(v, i + 2))
        } else if v[i + 1] == 'n' {
            scan_cons('\n', scan_jstr(v, i + 2))
        } else if v[i + 1] == 'f' {
            scan_cons('\u{c}', scan_jstr(v, i + 2))
        } else if v[i + 1] == 'r' {
            scan_cons('\r', scan_jstr(v, i + 2))
        } else if v[i + 1] == 'u' {
            if i + 6 > v.len() {
                None
            } else if v[i + 2] == '0' && v[i + 3] == '0' && is_lhex_digit(v[i + 4])
                && is_lhex_digit(v[i + 5]) {
                let u = lhex_val(v[i + 4]) * 16 + lhex_val(v[i + 5]);
                if u < 32 && !has_short_code(u) {
                    scan_cons(((u as u8) as char), scan_jstr(v, i + 6))
                } else {
                    None
                }
            } else {
                None
            }
        } else {
            None
        }
    } else if (v[i] as u32) < 32 {
        None
    } else {
        scan_cons(v[i], scan_jstr(v, i + 1))
    }
}

/// Soundness of the scanner: what it decodes re-encodes to exactly the part
/// of the input it consumed, closing quote included.
pub proof fn lemma_scan_jstr_sound(v: Seq<char>, i: int)
    requires
        scan_jstr(v, i) is Some,
    ensures
        ({
            let (t, j) = scan_jstr(v, i)->Some_0;
            &&& 0 <= i <= j <= v.len()
            &&& v.subrange(i, j) == esc(t) + quote_seq()
        }),
    decreases v.len() - i,
{
    let (t, j) = scan_jstr(v, i)->Some_0;
    reveal(scan_jstr);
    if v[i] == '"' {
        assert(v.subrange(i, i + 1) =~= seq![v[i]]);
        assert(esc(t) + quote_seq() =~= seq!['"']);
    } else {
        let (c, step): (char, int) = if v[i] == '\\' {
            if v[i + 1] == '"' {
                ('"', 2)
            } else if v[i + 1] == '\\' {
                ('\\', 2)
            } else if v[i + 1] == 'b' {
                ('\u{8}', 2)
            } else if v[i + 1] == 't' {
                ('\t', 2)
            } else if v[i + 1] == 'n' {
                ('\n', 2)
            } else if v[i + 1] == 'f' {
                ('\u{c}', 2)
            } else if v[i + 1] == 'r' {
                ('\r', 2)
            } else {
                let u = lhex_val(v[i + 4]) * 16 + lhex_val(v[i + 5]);
                (((u as u8) as char), 6)
            }
        } else {
            (v[i], 1)
        };
        let rest = scan_jstr(v, i + step);
        assert(rest is Some);
        let (t2, j2) = rest->Some_0;
        lemma_scan_jstr_sound(v, i + step);
        assert(t == seq![c] + t2);
        assert(j == j2);
        assert(v.subrange(i + step, j) == esc(t2) + quote_seq());
        lemma_esc_append(seq![c], t2);
        lemma_esc_singleton(c);
        assert(esc_char(c) == v.subrange(i, i + step)) by {
            assert(v.subrange(i, i + step) =~= esc_char(c));
        };
        assert(v.subrange(i, j) =~= v.subrange(i, i + step) + v.subrange(i + step, j));
        assert(esc(t) + quote_seq() =~= esc_char(c) + (esc(t2) + quote_seq()));
    }
}

/// A low control character without a short escape code keeps its value
/// through the cast chain of the long escape form.
pub proof fn lemma_low_char_code(c: char)
    requires
        (c as u32) < 32,
        c != '\u{8}',
        c != '\t',
        c != '\n',
        c != '\u{c}',
        c != '\r',
    ensures
        !has_short_code(c as u32 as int),
        (((c as u32 as int) as u8) as char) == c,
{
    let u = c as u32 as int;
    assert(u != 9) by {
        if c as u32 == 9 {
            assert((9u32 as char) == c);
            assert(('\t' as u32) == 9);
        }
    };
    assert(u != 8 && u != 10 && u != 12 && u != 13) by {
        if c as u32 == 8 {
            assert((8u32 as char) == c && ('\u{8}' as u32) == 8);
        }
        if c as u32 == 10 {
            assert((10u32 as char) == c && ('\n' as u32) == 10);
        }
        if c as u32 == 12 {
            assert((12u32 as char) == c && ('\u{c}' as u32) == 12);
        }
        if c as u32 == 13 {
            assert((13u32 as char) == c && ('\r' as u32) == 13);
        }
    };
    assert((u as u8) as char == c);
}

/// Completeness of the scanner: wherever an encoded string body stands in the
/// input, the scanner decodes exactly it.
pub proof fn lemma_scan_jstr_complete(v: Seq<char>, i: int, t: Seq<char>)
    requires
        lit_at(v, i, esc(t) + quote_seq()),
    ensures
        scan_jstr(v, i) == Some((t, i + esc(t).len() + 1)),
    decreases t.len(),
{
    let whole = esc(t) + quote_seq();
    reveal(scan_jstr);
    assert(forall|k: int| 0 <= k < whole.len() ==> v[i + k] == #[trigger] whole[k]) by {
        assert(forall|k: int| 0 <= k < whole.len() ==> #[trigger] whole[k] == v.subrange(
            i,
            i + whole.len(),
        )[k]);
    };
    if t.len() == 0 {
        assert(esc(t) == Seq::<char>::empty());
        assert(whole[0] == '"');
        assert(v[i] == '"');
        assert(scan_jstr(v, i) == Some((Seq::<char>::empty(), i + 1)));
        assert(t =~= Seq::<char>::empty());
    } else {
        let c = t[0];
        let t2 = t.drop_first();
        assert(esc(t) == esc_char(c) + esc(t2));
        lemma_esc_char_head(c);
        let step = esc_char(c).len() as int;
        assert(forall|k: int| 0 <= k < step ==> v[i + k] == #[trigger] esc_char(c)[k]) by {
            assert(forall|k: int| 0 <= k < step ==> #[trigger] esc_char(c)[k] == whole[k]);
        };
        assert(lit_at(v, i + step, esc(t2) + quote_seq())) by {
            assert(v.subrange(i + step, i + step + (esc(t2) + quote_seq()).len()) =~= esc(t2)
                + quote_seq()) by {
                assert(forall|k: int| 0 <= k < (esc(t2) + quote_seq()).len() ==> v[i + step + k]
                    == #[trigger] (esc(t2) + quote_seq())[k]) by {
                    assert(forall|k: int| 0 <= k < (esc(t2) + quote_seq()).len()
                        ==> #[trigger] (esc(t2) + quote_seq())[k] == whole[step + k]);
                };
            };
        };
        lemma_scan_jstr_complete(v, i + step, t2);
        assert(scan_jstr(v, i + step) == Some((t2, i + step + esc(t2).len() + 1)));
        if !is_escaped_char(c) {
            assert(esc_char(c) == seq![c]);
            assert(v[i] == c);
            assert(v[i] != '"' && v[i] != '\\' && !((v[i] as u32) < 32));
            assert(scan_jstr(v, i) == scan_cons(c, scan_jstr(v, i + 1)));
            assert(seq![c] + t2 =~= t);
        } else {
            assert(v[i] == '\\');
            if c == '"' {
                assert(v[i + 1] == '"');
                assert(seq![c] + t2 =~= t);
            } else if c == '\\' {
                assert(v[i + 1] == '\\');
                assert(seq![c] + t2 =~= t);
            } else if c == '\u{8}' {
                assert(v[i + 1] == 'b');
                assert(seq![c] + t2 =~= t);
            } else if c == '\t' {
                assert(v[i + 1] == 't');
                assert(seq![c] + t2 =~= t);
            } else if c == '\n' {
                assert(v[i + 1] == 'n');
                assert(seq![c] + t2 =~= t);
            } else if c == '\u{c}' {
                assert(v[i + 1] == 'f');
                assert(seq![c] + t2 =~= t);
            } else if c == '\r' {
                assert(v[i + 1] == 'r');
                assert(seq![c] + t2 =~= t);
            } else {
                let u = c as u32 as int;
                assert(u < 32);
                lemma_low_char_code(c);
                assert(!has_short_code(u));
                assert(v[i + 1] == 'u');
                assert(v[i + 2] == '0');
                assert(v[i + 3] == '0');
                assert(v[i + 4] == hex_digit((u / 16) as u64));
                assert(v[i + 5] == hex_digit((u % 16) as u64));
                assert(is_lhex_digit(v[i + 4]) && lhex_val(v[i + 4]) == u / 16);
                assert(is_lhex_digit(v[i + 5]) && lhex_val(v[i + 5]) == u % 16);
                assert(lhex_val(v[i + 4]) * 16 + lhex_val(v[i + 5]) == u);
                assert(((u as u8) as char) == c);
                assert(seq![c] + t2 =~= t);
            }
        }
    }
}

/// The position of the first non-digit character at or after `i`.
pub open spec fn dec_end(v: Seq<char>, i: int) -> int
    decreases v.len() - i,
{
    if i < 0 || i >= v.len() {
        i
    } else if is_dec_digit(v[i]) {
        dec_end(v, i + 1)
    } else {
        i
    }
}

/// The numeric value of the digit run `v[i..j]`.
pub open spec fn dec_value(v: Seq<char>, i: int, j: int) -> int
    decreases j - i,
{
    if i >= j {
        0
    } else {
        dec_value(v, i, j - 1) * 10 + dec_val(v[j - 1])
    }
}

/// Scans a canonical decimal number starting at `i`: a maximal digit run
/// without a leading zero whose value fits in a machine word.
#[verifier::opaque]
pub open spec fn scan_dec(v: Seq<char>, i: int) -> Option<(u64, int)> {
    let j = dec_end(v, i);
    if i < 0 || j == i {
        None
    } else if v[i] == '0' && j != i + 1 {
        None
    } else if dec_value(v, i, j) > u64::MAX {
        None
    } else {
        Some((dec_value(v, i, j) as u64, j))
    }
}

/// Basic facts about the end of a digit run.
pub proof fn lemma_dec_end_props(v: Seq<char>, i: int)
    requires
        0 <= i <= v.len(),
    ensures
        i <= dec_end(v, i) <= v.len(),
        forall|k: int| i <= k < dec_end(v, i) ==> is_dec_digit(#[trigger] v[k]),
        dec_end(v, i) < v.len() ==> !is_dec_digit(v[dec_end(v, i)]),
    decreases v.len() - i,
{
    if i < v.len() && is_dec_digit(v[i]) {
        lemma_dec_end_props(v, i + 1);
    }
}

/// A digit run bounded by a non-digit ends exactly at that boundary.
pub proof fn lemma_dec_end_bound(v: Seq<char>, i: int, j: int)
    requires
        0 <= i <= j <= v.len(),
        forall|k: int| i <= k < j ==> is_dec_digit(#[trigger] v[k]),
        j == v.len() || !is_dec_digit(v[j]),
    ensures
        dec_end(v, i) == j,
    decreases j - i,
{
    if i < j {
        lemma_dec_end_bound(v, i + 1, j);
    }
}

/// A digit character's value renders back to the same character.
pub proof fn lemma_digit_roundtrip(c: char)
    requires
        is_dec_digit(c),
    ensures
        0 <= dec_val(c) < 10,
        dec_digit(dec_val(c)) == c,
{
    assert(48 <= (c as u32) <= 57);
    assert((dec_val(c) + 48) as u8 == (c as u32) as u8);
    assert((((c as u32) as u8) as char) == c);
}

/// The canonical rendering consists of digits and has no leading zero unless
/// it is the single digit zero.
pub proof fn lemma_dec_of_shape(n: u64)
    ensures
        dec_of(n).len() >= 1,
        forall|k: int| 0 <= k < dec_of(n).len() ==> is_dec_digit(#[trigger] dec_of(n)[k]),
        n >= 1 ==> dec_of(n)[0] != '0',
        n == 0 ==> dec_of(n) == seq!['0'],
        n < 10 ==> dec_of(n).len() == 1,
    decreases n,
{
    if n < 10 {
        assert(dec_of(n) == seq![dec_digit(n)]);
        assert(dec_digit(n) as u32 == n + 48);
        assert(is_dec_digit(dec_digit(n)));
        assert(n >= 1 ==> dec_digit(n) != '0') by {
            if n >= 1 && dec_digit(n) == '0' {
                assert(dec_digit(n) as u32 == 48);
            }
        };
    } else {
        lemma_dec_of_shape((n / 10) as u64);
        let head = dec_of((n / 10) as u64);
        assert(dec_of(n) == head.push(dec_digit(n % 10)));
        assert(is_dec_digit(dec_digit(n % 10))) by {
            assert(dec_digit(n % 10) as u32 == (n % 10) + 48);
        };
        assert(forall|k: int| 0 <= k < dec_of(n).len() ==> is_dec_digit(#[trigger] dec_of(n)[k]))
            by {
            assert(forall|k: int| 0 <= k < head.len() ==> dec_of(n)[k] == #[trigger] head[k]);
            assert(dec_of(n)[head.len() as int] == dec_digit(n % 10));
        };
        assert(dec_of(n)[0] == head[0]);
    }
}

/// The value of the rendered digits of `n` is `n` itself.
pub proof fn lemma_dec_value_of(v: Seq<char>, i: int, n: u64)
    requires
        0 <= i,
        i + dec_of(n).len() <= v.len(),
        v.subrange(i, i + dec_of(n).len()) == dec_of(n),
    ensures
        dec_value(v, i, i + dec_of(n).len()) == n,
    decreases n,
{
    lemma_dec_of_shape(n);
    let j = i + dec_of(n).len();
    reveal(scan_dec);
    assert(forall|k: int| 0 <= k < dec_of(n).len() ==> v[i + k] == #[trigger] dec_of(n)[k]) by {
        assert(forall|k: int| 0 <= k < dec_of(n).len() ==> #[trigger] dec_of(n)[k] == v.subrange(
            i,
            i + dec_of(n).len(),
        )[k]);
    };
    if n < 10 {
        assert(dec_of(n)[0] == dec_digit(n));
        assert(v[i + 0] == dec_of(n)[0]);
        assert(v[i] == dec_digit(n));
        assert(dec_value(v, i, j) == dec_value(v, i, j - 1) * 10 + dec_val(v[j - 1]));
        assert(dec_val(dec_digit(n)) == n) by {
            assert(dec_digit(n) as u32 == n + 48);
        };
    } else {
        let head = dec_of((n / 10) as u64);
        assert(dec_of(n) == head.push(dec_digit(n % 10)));
        assert(v.subrange(i, i + head.len()) =~= head) by {
            assert(forall|k: int| 0 <= k < head.len() ==> #[trigger] head[k] == dec_of(n)[k]) by {
                assert(forall|k: int| 0 <= k < head.len() ==> dec_of(n)[k] == #[trigger] head.push(
                    dec_digit(n % 10),
                )[k]);
            };
        };
        lemma_dec_value_of(v, i, (n / 10) as u64);
        assert(v[j - 1] == dec_of(n)[dec_of(n).len() - 1]);
        assert(dec_of(n)[dec_of(n).len() - 1] == dec_digit(n % 10));
        assert(dec_val(dec_digit(n % 10)) == n % 10) by {
            assert(dec_digit(n % 10) as u32 == (n % 10) + 48);
        };
        assert(dec_value(v, i, j) == dec_value(v, i, j - 1) * 10 + dec_val(v[j - 1]));
        assert(dec_value(v, i, j - 1) == n / 10);
        assert((n / 10) * 10 + (n % 10) == n) by (nonlinear_arith);
    }
}

/// A nonempty digit run that does not start with a zero has a positive value,
/// and any digit run has a nonnegative value.
pub proof fn lemma_dec_value_pos(v: Seq<char>, i: int, j: int)
    requires
        0 <= i <= j <= v.len(),
        forall|k: int| i <= k < j ==> is_dec_digit(#[trigger] v[k]),
    ensures
        dec_value(v, i, j) >= 0,
        i < j && v[i] != '0' ==> dec_value(v, i, j) >= 1,
    decreases j - i,
{
    if i < j {
        lemma_dec_value_pos(v, i, j - 1);
        assert(dec_val(v[j - 1]) >= 0);
        assert(dec_value(v, i, j) == dec_value(v, i, j - 1) * 10 + dec_val(v[j - 1]));
        if v[i] != '0' {
            if j - 1 == i {
                assert(dec_val(v[i]) >= 1) by {
                    lemma_digit_roundtrip(v[i]);
                    if dec_val(v[i]) == 0 {
                        assert(dec_digit(0) == '0');
                    }
                };
            } else {
                assert(dec_value(v, i, j - 1) * 10 >= 10) by (nonlinear_arith)
                    requires dec_value(v, i, j - 1) >= 1;
            }
        }
    }
}

/// Soundness of the decimal scan: the digits consumed are exactly the
/// canonical rendering of the value returned, and the run is maximal.
pub proof fn lemma_scan_dec_sound(v: Seq<char>, i: int)
    requires
        0 <= i <= v.len(),
        scan_dec(v, i) is Some,
    ensures
        ({
            let (n, j) = scan_dec(v, i)->Some_0;
            &&& i < j <= v.len()
            &&& v.subrange(i, j) == dec_of(n)
            &&& j == v.len() || !is_dec_digit(v[j])
        }),
{
    let (n, j) = scan_dec(v, i)->Some_0;
    lemma_dec_end_props(v, i);
    reveal(scan_dec);
    lemma_dec_value_pos(v, i, j);
    lemma_scan_dec_sound_run(v, i, j);
}

/// The digits of a maximal run render back to themselves.
proof fn lemma_scan_dec_sound_run(v: Seq<char>, i: int, j: int)
    requires
        0 <= i < j <= v.len(),
        forall|k: int| i <= k < j ==> is_dec_digit(#[trigger] v[k]),
        v[i] == '0' ==> j == i + 1,
        0 <= dec_value(v, i, j) <= u64::MAX,
    ensures
        v.subrange(i, j) == dec_of(dec_value(v, i, j) as u64),
    decreases j - i,
{
    let n = dec_value(v, i, j);
    if j == i + 1 {
        assert(n == dec_val(v[i]));
        lemma_digit_roundtrip(v[i]);
        assert(n < 10);
        assert(dec_of(n as u64) == seq![dec_digit(n as u64)]);
        assert(v.subrange(i, j) =~= seq![v[i]]);
    } else {
        assert(v[i] != '0');
        lemma_dec_value_pos(v, i, j - 1);
        let m = dec_value(v, i, j - 1);
        assert(m >= 1);
        assert(n == m * 10 + dec_val(v[j - 1]));
        lemma_digit_roundtrip(v[j - 1]);
        assert(0 <= dec_val(v[j - 1]) < 10);
        assert(m * 10 <= n) by (nonlinear_arith)
            requires n == m * 10 + dec_val(v[j - 1]), dec_val(v[j - 1]) >= 0;
        assert(m <= u64::MAX) by (nonlinear_arith)
            requires m >= 1, m * 10 <= n, n <= u64::MAX;
        lemma_scan_dec_sound_run(v, i, j - 1);
        assert(n >= 10) by (nonlinear_arith)
            requires n == m * 10 + dec_val(v[j - 1]), m >= 1, dec_val(v[j - 1]) >= 0;
        let nu = n as u64;
        assert(nu == n);
        assert(n / 10 == m && n % 10 == dec_val(v[j - 1])) by (nonlinear_arith)
            requires n == m * 10 + dec_val(v[j - 1]), 0 <= dec_val(v[j - 1]) < 10, m >= 0;
        assert(nu / 10 == m && nu % 10 == dec_val(v[j - 1]));
        assert(dec_of(nu) == dec_of(m as u64).push(dec_digit(dec_val(v[j - 1]))));
        assert(dec_digit(dec_val(v[j - 1])) == v[j - 1]);
        assert(v.subrange(i, j) =~= v.subrange(i, j - 1).push(v[j - 1]));
    }
}

/// Completeness of the decimal scan: wherever a canonical rendering stands,
/// bounded on the right, the scanner reads back exactly its value.
pub proof fn lemma_scan_dec_complete(v: Seq<char>, i: int, n: u64)
    requires
        lit_at(v, i, dec_of(n)),
        i + dec_of(n).len() == v.len() || !is_dec_digit(v[i + dec_of(n).len()]),
    ensures
        scan_dec(v, i) == Some((n, i + dec_of(n).len())),
{
    reveal(scan_dec);
    lemma_dec_of_shape(n);
    let j = i + dec_of(n).len();
    assert(forall|k: int| i <= k < j ==> #[trigger] v[k] == dec_of(n)[k - i]) by {
        assert(forall|k: int| i <= k < j ==> #[trigger] v.subrange(i, i + dec_of(n).len())[k - i]
            == v[k]);
    };
    assert(forall|k: int| i <= k < j ==> is_dec_digit(#[trigger] v[k]));
    lemma_dec_end_bound(v, i, j);
    lemma_dec_value_of(v, i, n);
    if v[i] == '0' {
        assert(dec_of(n)[0] == '0');
        assert(n == 0) by {
            if n >= 1 {
                assert(dec_of(n)[0] != '0');
            }
        };
        assert(j == i + 1);
    }
}

/// Glues already-decoded characters onto the front of a scan result.
pub open spec fn scan_glue(acc: Seq<char>, r: Option<(Seq<char>, int)>) -> Option<
    (Seq<char>, int),
> {
    match r {
        Some((t, j)) => Some((acc + t, j)),
        None => None,
    }
}

/// Checks that the literal occurs in `v` at position `i` and steps over it.
pub fn match_lit(v: &Vec<char>, i: usize, lit: &str) -> (r: Option<usize>)
    ensures
        match r {
            Some(j) => lit_at(v@, i as int, lit@) && j == i + lit@.len(),
            None => !lit_at(v@, i as int, lit@),
        },
{
    let n: usize = lit.unicode_len();
    if i > v.len() || n > v.len() - i {
        return None;
    }
    let mut j: usize = 0;
    while j < n
        invariant
            j <= n,
            i + n <= v@.len(),
            v@.len() <= usize::MAX,
            n == lit@.len(),
            forall|k: int| 0 <= k < j ==> v@[i + k] == #[trigger] lit@[k],
        decreases n - j,
    {
        if v[i + j] != lit.get_char(j) {
            proof {
                assert(!lit_at(v@, i as int, lit@)) by {
                    if lit_at(v@, i as int, lit@) {
                        assert(v@.subrange(i as int, i + lit@.len())[j as int] == lit@[j as int]);
                    }
                }
            }
            return None;
        }
        j = j + 1;
    }
    proof {
        assert(v@.subrange(i as int, i + lit@.len()) =~= lit@);
    }
    Some(i + n)
}

/// Decodes an encoded string body, returning the text and the position just
/// past the closing quote. Mirrors [`scan_jstr`] exactly.
pub fn scan_jstring(v: &Vec<char>, i: usize) -> (r: Option<(Vec<char>, usize)>)
    ensures
        match r {
            Some((t, j)) => scan_jstr(v@, i as int) == Some((t@, j as int)) && j <= v@.len(),
            None => scan_jstr(v@, i as int) is None,
        },
{
    proof {
        reveal(scan_jstr);
    }
    let mut acc: Vec<char> = Vec::new();
    let mut p: usize = i;
    loop
        invariant
            i <= p,
            p <= usize::MAX,
            scan_jstr(v@, i as int) == scan_glue(acc@, scan_jstr(v@, p as int)),
        decreases v@.len() - p,
    {
        proof {
            reveal(scan_jstr);
        }
        if p >= v.len() {
            return None;
        }
        let c: char = v[p];
        if c == '"' {
            proof {
            reveal(scan_jstr);
                assert(acc@ + Seq::<char>::empty() =~= acc@);
            }
            return Some((acc, p + 1));
        }
        if c == '\\' {
            if p + 1 >= v.len() {
                return None;
            }
            let e: char = v[p + 1];
            let dec: Option<char> = if e == '"' {
                Some('"')
            } else if e == '\\' {
                Some('\\')
            } else if e == 'b' {
                Some('\u{8}')
            } else if e == 't' {
                Some('\t')
            } else if e == 'n' {
                Some('\n')
            } else if e == 'f' {
                Some('\u{c}')
            } else if e == 'r' {
                Some('\r')
            } else {
                None
            };
            match dec {
                Some(d) => {
                    proof {
            reveal(scan_jstr);
                        assert(scan_jstr(v@, p as int) == scan_cons(d, scan_jstr(v@, p + 2)));
                        assert(forall|t: Seq<char>| acc@ + (seq![d] + t) =~= #[trigger] (acc@.push(
                            d,
                        ) + t));
                    }
                    acc.push(d);
                    p = p + 2;
                },
                None => {
                    if e != 'u' {
                        return None;
                    }
                    if v.len() - p < 6 {
                        return None;
                    }
                    if !(v[p + 2] == '0' && v[p + 3] == '0') {
                        return None;
                    }
                    let h1: char = v[p + 4];
                    let h2: char = v[p + 5];
                    let x1: u32 = if '0' <= h1 && h1 <= '9' {
                        (h1 as u32) - 48
                    } else if 'a' <= h1 && h1 <= 'f' {
                        (h1 as u32) - 87
                    } else {
                        return None;
                    };
                    let x2: u32 = if '0' <= h2 && h2 <= '9' {
                        (h2 as u32) - 48
                    } else if 'a' <= h2 && h2 <= 'f' {
                        (h2 as u32) - 87
                    } else {
                        return None;
                    };
                    proof {
            reveal(scan_jstr);
                        assert(is_lhex_digit(h1) && x1 == lhex_val(h1));
                        assert(is_lhex_digit(h2) && x2 == lhex_val(h2));
                    }
                    let u: u32 = x1 * 16 + x2;
                    if !(u < 32) {
                        return None;
                    }
                    if u == 8 || u == 9 || u == 10 || u == 12 || u == 13 {
                        return None;
                    }
                    let d: char = (u as u8) as char;
                    proof {
            reveal(scan_jstr);
                        assert(scan_jstr(v@, p as int) == scan_cons(d, scan_jstr(v@, p + 6)));
                        assert(forall|t: Seq<char>| acc@ + (seq![d] + t) =~= #[trigger] (acc@.push(
                            d,
                        ) + t));
                    }
                    acc.push(d);
                    p = p + 6;
                },
            }
        } else if (c as u32) < 32 {
            return None;
        } else {
            proof {
            reveal(scan_jstr);
                assert(scan_jstr(v@, p as int) == scan_cons(c, scan_jstr(v@, p + 1)));
                assert(forall|t: Seq<char>| acc@ + (seq![c] + t) =~= #[trigger] (acc@.push(c)
                    + t));
            }
            acc.push(c);
            p = p + 1;
        }
    }
}

/// Reads a canonical decimal number. Mirrors [`scan_dec`] exactly.
pub fn scan_decimal(v: &Vec<char>, i: usize) -> (r: Option<(u64, usize)>)
    requires
        i <= v@.len(),
    ensures
        match r {
            Some((n, j)) => scan_dec(v@, i as int) == Some((n, j as int)) && i < j <= v@.len(),
            None => scan_dec(v@, i as int) is None,
        },
{
    proof {
            reveal(scan_dec);
        lemma_dec_end_props(v@, i as int);
    }
    let mut p: usize = i;
    let mut acc: u64 = 0;
    let mut overflow: bool = false;
    let mut done: bool = false;
    while p < v.len() && !done
        invariant
            i <= p <= v@.len(),
            dec_end(v@, i as int) == dec_end(v@, p as int),
            done ==> p < v@.len() && !is_dec_digit(v@[p as int]),
            !overflow ==> acc == dec_value(v@, i as int, p as int),
            overflow ==> dec_value(v@, i as int, p as int) > u64::MAX,
            overflow ==> p > i,
        decreases v@.len() - p + (if done { 0int } else { 1int }),
    {
        proof {
            reveal(scan_dec);
        }
        let c: char = v[p];
        if '0' <= c && c <= '9' {
            let d: u64 = ((c as u32) - 48) as u64;
            proof {
            reveal(scan_dec);
                assert(is_dec_digit(c) && d == dec_val(c));
                assert(dec_value(v@, i as int, p + 1) == dec_value(v@, i as int, p as int) * 10
                    + d);
                if overflow {
                    assert(dec_value(v@, i as int, p as int) * 10 + d > u64::MAX)
                        by (nonlinear_arith)
                        requires
                            dec_value(v@, i as int, p as int) > u64::MAX,
                            d >= 0,
                    ;
                }
            }
            if !overflow {
                match acc.checked_mul(10) {
                    Some(m) => {
                        match m.checked_add(d) {
                            Some(a) => {
                                acc = a;
                            },
                            None => {
                                overflow = true;
                            },
                        }
                    },
                    None => {
                        overflow = true;
                    },
                }
            }
            p = p + 1;
        } else {
            done = true;
        }
    }
    proof {
            reveal(scan_dec);
        assert(dec_end(v@, p as int) == p);
        assert(dec_end(v@, i as int) == p);
    }
    if p == i {
        return None;
    }
    if overflow {
        return None;
    }
    let first: char = v[i];
    if first == '0' && p != i + 1 {
        return None;
    }
    Some((acc, p))
}

/// Splits a known concatenation at a position: the left part stands at `p`
/// and the right part is the rest of the suffix.
pub proof fn lemma_concat_split(v: Seq<char>, p: int, x: Seq<char>, rest: Seq<char>)
    requires
        0 <= p <= v.len(),
        v.subrange(p, v.len() as int) == x + rest,
    ensures
        lit_at(v, p, x),
        v.subrange(p + x.len(), v.len() as int) == rest,
{
    let suf = v.subrange(p, v.len() as int);
    assert(suf.len() == (x + rest).len());
    assert(forall|k: int| 0 <= k < suf.len() ==> #[trigger] v[p + k] == (x + rest)[k]) by {
        assert(forall|k: int| 0 <= k < suf.len() ==> #[trigger] suf[k] == v[p + k]);
    };
    assert(v.subrange(p, p + x.len()) =~= x);
    assert(forall|k: int| 0 <= k < rest.len() ==> #[trigger] v.subrange(
        p + x.len(),
        v.len() as int,
    )[k] == rest[k]) by {
        assert(forall|k: int| 0 <= k < rest.len() ==> #[trigger] v.subrange(
            p + x.len(),
            v.len() as int,
        )[k] == v[p + x.len() + k]);
        assert(forall|k: int| 0 <= k < rest.len() ==> #[trigger] rest[k] == (x + rest)[x.len()
            + k]);
        assert(forall|k: int| 0 <= k < rest.len() ==> v[p + (x.len() + k)] == #[trigger] (x
            + rest)[x.len() + k]);
    };
    assert(v.subrange(p + x.len(), v.len() as int) =~= rest);
}

/// Glues a consumed piece onto an already-consumed prefix.
pub proof fn lemma_prefix_glue(v: Seq<char>, p: int, q: int, r: int)
    requires
        0 <= p <= q <= r <= v.len(),
    ensures
        v.subrange(p, r) == v.subrange(p, q) + v.subrange(q, r),
{
    assert(v.subrange(p, r) =~= v.subrange(p, q) + v.subrange(q, r));
}

/// The canonical encoding of a token transfer message: the bearer token's
/// serialized form carried as one encoded string.
pub open spec fn token_msg_json(t: Seq<char>) -> Seq<char> {
    quote_seq() + esc(t) + quote_seq()
}

/// The canonical parse of a token transfer message.
#[verifier::opaque]
pub open spec fn parse_token_msg_v(v: Seq<char>) -> Option<Seq<char>> {
    if v.len() < 1 || v[0] != '"' {
        None
    } else {
        match scan_jstr(v, 1) {
            Some((t, j)) => if j == v.len() {
                Some(t)
            } else {
                None
            },
            None => None,
        }
    }
}

/// Parsing a token message accepts exactly its canonical encoding.
pub proof fn lemma_token_msg_roundtrip(v: Seq<char>)
    ensures
        parse_token_msg_v(v) is Some ==> v == token_msg_json(parse_token_msg_v(v)->Some_0),
        forall|t: Seq<char>| v == token_msg_json(t) ==> parse_token_msg_v(v) == Some(t),
{
    if parse_token_msg_v(v) is Some {
    reveal(parse_token_msg_v);
        let t = parse_token_msg_v(v)->Some_0;
        lemma_scan_jstr_sound(v, 1);
        assert(v.subrange(1, v.len() as int) == esc(t) + quote_seq());
        assert(v.subrange(0, 1) =~= quote_seq());
        lemma_prefix_glue(v, 0, 1, v.len() as int);
        assert(v.subrange(0, v.len() as int) =~= v);
        assert(v =~= quote_seq() + (esc(t) + quote_seq()));
        assert(quote_seq() + (esc(t) + quote_seq()) =~= token_msg_json(t));
    }
    assert forall|t: Seq<char>| v == token_msg_json(t) implies parse_token_msg_v(v) == Some(
        t,
    ) by {
        reveal(parse_token_msg_v);
        assert(v.len() >= 2);
        assert(v[0] == '"') by {
            assert(token_msg_json(t)[0] == '"');
        };
        assert(v.subrange(0, v.len() as int) =~= v);
        assert(v.subrange(0, v.len() as int) =~= quote_seq() + (esc(t) + quote_seq())) by {
            assert(token_msg_json(t) =~= quote_seq() + (esc(t) + quote_seq()));
        };
        lemma_concat_split(v, 0, quote_seq(), esc(t) + quote_seq());
        assert(v.subrange(1, v.len() as int) == esc(t) + quote_seq());
        assert(lit_at(v, 1, esc(t) + quote_seq())) by {
            assert(v.subrange(1, 1 + (esc(t) + quote_seq()).len() as int) =~= v.subrange(
                1,
                v.len() as int,
            ));
        };
        lemma_scan_jstr_complete(v, 1, t);
        assert(scan_jstr(v, 1) == Some((t, 1 + esc(t).len() as int + 1)));
        assert(1 + esc(t).len() + 1 == v.len());
    };
}

/// Encodes a token transfer message.
pub fn serialize_token_message(token: &str) -> (r: String)
    ensures
        r@ == token_msg_json(token@),
{
    let mut out: Vec<char> = Vec::new();
    out.push('"');
    crate::textenc::push_escaped(&mut out, token);
    out.push('"');
    proof {
        assert(out@ =~= token_msg_json(token@));
    }
    crate::textenc::string_of(&out)
}

/// Decodes a token transfer message; accepts exactly the canonical encoding.
pub fn parse_token_message(s: &str) -> (r: Option<String>)
    ensures
        match r {
            Some(t) => parse_token_msg_v(s@) == Some(t@),
            None => parse_token_msg_v(s@) is None,
        },
{
    proof {
        reveal(parse_token_msg_v);
    }
    let v: Vec<char> = crate::textenc::chars_of(s);
    if v.len() < 1 {
        return None;
    }
    if v[0] != '"' {
        return None;
    }
    match scan_jstring(&v, 1) {
        Some((t, j)) => {
            if j == v.len() {
                Some(crate::textenc::string_of(&t))
            } else {
                None
            }
        },
        None => None,
    }
}

/// Opening literal of a registration: up to the escrow id's first character.
pub open spec fn lr1() -> Seq<char> {
    "{\"escrow_id_hex\":\""@
}

/// Literal between the escrow id and the coordinator key.
pub open spec fn lr2() -> Seq<char> {
    ",\"coordinator_escrow_pubkey\":\""@
}

/// Literal between the coordinator key and the start time.
pub open spec fn lr3() -> Seq<char> {
    ",\"escrow_start_time\":"@
}

/// Closing literal of a registration.
pub open spec fn lr4() -> Seq<char> {
    "}"@
}

/// The canonical encoding of an escrow registration.
pub open spec fn registration_json(r: crate::model::EscrowRegistrationV) -> Seq<char> {
    lr1() + esc(r.escrow_id_hex) + quote_seq() + lr2() + esc(r.coordinator_escrow_pubkey)
        + quote_seq() + lr3() + dec_of(r.escrow_start_time) + lr4()
}

/// The canonical parse of an escrow registration.
#[verifier::opaque]
pub open spec fn parse_registration_v(v: Seq<char>) -> Option<crate::model::EscrowRegistrationV> {
    if !lit_at(v, 0, lr1()) {
        None
    } else {
        match scan_jstr(v, lr1().len() as int) {
            None => None,
            Some((id, p1)) => {
                if !lit_at(v, p1, lr2()) {
                    None
                } else {
                    match scan_jstr(v, p1 + lr2().len()) {
                        None => None,
                        Some((pk, p2)) => {
                            if !lit_at(v, p2, lr3()) {
                                None
                            } else {
                                match scan_dec(v, p2 + lr3().len()) {
                                    None => None,
                                    Some((ts, p3)) => {
                                        if lit_at(v, p3, lr4()) && p3 + lr4().len() == v.len() {
                                            Some(
                                                crate::model::EscrowRegistrationV {
                                                    escrow_id_hex: id,
                                                    coordinator_escrow_pubkey: pk,
                                                    escrow_start_time: ts,
                                                },
                                            )
                                        } else {
                                            None
                                        }
                                    },
                                }
                            }
                        },
                    }
                }
            },
        }
    }
}

/// A successful registration parse re-encodes to exactly the input.
#[verifier::spinoff_prover]
#[verifier::rlimit(100)]
pub proof fn lemma_parse_registration_sound(v: Seq<char>)
    requires
        parse_registration_v(v) is Some,
    ensures
        v == registration_json(parse_registration_v(v)->Some_0),
{
    let p0 = lr1().len() as int;
    let (id, p1) = scan_jstr(v, p0)->Some_0;
    reveal(parse_registration_v);
    lemma_scan_jstr_sound(v, p0);
    let p1b = p1 + lr2().len() as int;
    let (pk, p2) = scan_jstr(v, p1b)->Some_0;
    lemma_scan_jstr_sound(v, p1b);
    let p2b = p2 + lr3().len() as int;
    let (ts, p3) = scan_dec(v, p2b)->Some_0;
    lemma_scan_dec_sound(v, p2b);
    assert(v.subrange(0, p0) == lr1());
    assert(v.subrange(p1, p1b) == lr2());
    assert(v.subrange(p2, p2b) == lr3());
    assert(v.subrange(p3, v.len() as int) == lr4()) by {
        assert(p3 + lr4().len() == v.len());
    };
    lemma_prefix_glue(v, 0, p0, p1);
    assert(v.subrange(0, p1) == lr1() + (esc(id) + quote_seq()));
    lemma_prefix_glue(v, 0, p1, p1b);
    lemma_prefix_glue(v, 0, p1b, p2);
    lemma_prefix_glue(v, 0, p2, p2b);
    lemma_prefix_glue(v, 0, p2b, p3);
    lemma_prefix_glue(v, 0, p3, v.len() as int);
    assert(v.subrange(0, v.len() as int) =~= v);
    assert(v =~= ((((((lr1() + (esc(id) + quote_seq())) + lr2()) + (esc(pk) + quote_seq()))
        + lr3()) + dec_of(ts)) + lr4()));
    assert(registration_json(parse_registration_v(v)->Some_0) =~= ((((((lr1() + (esc(id)
        + quote_seq())) + lr2()) + (esc(pk) + quote_seq())) + lr3()) + dec_of(ts)) + lr4()));
}

/// The canonical encoding of a registration parses back to exactly it.
#[verifier::spinoff_prover]
#[verifier::rlimit(100)]
pub proof fn lemma_parse_registration_complete(v: Seq<char>, r: crate::model::EscrowRegistrationV)
    requires
        v == registration_json(r),
    ensures
        parse_registration_v(v) == Some(r),
{
    let t1 = esc(r.escrow_id_hex) + quote_seq();
    reveal(parse_registration_v);
    let t2 = esc(r.coordinator_escrow_pubkey) + quote_seq();
    let d3 = dec_of(r.escrow_start_time);
    let r1 = t1 + (lr2() + (t2 + (lr3() + (d3 + lr4()))));
    assert(v.subrange(0, v.len() as int) =~= v);
    assert(v =~= lr1() + r1);
    lemma_concat_split(v, 0, lr1(), r1);
    let p0 = lr1().len() as int;
    let r2 = lr2() + (t2 + (lr3() + (d3 + lr4())));
    lemma_concat_split(v, p0, t1, r2);
    lemma_scan_jstr_complete(v, p0, r.escrow_id_hex);
    let p1 = p0 + t1.len() as int;
    assert(scan_jstr(v, p0) == Some((r.escrow_id_hex, p1)));
    let r3 = t2 + (lr3() + (d3 + lr4()));
    lemma_concat_split(v, p1, lr2(), r3);
    let p1b = p1 + lr2().len() as int;
    let r4 = lr3() + (d3 + lr4());
    lemma_concat_split(v, p1b, t2, r4);
    lemma_scan_jstr_complete(v, p1b, r.coordinator_escrow_pubkey);
    let p2 = p1b + t2.len() as int;
    assert(scan_jstr(v, p1b) == Some((r.coordinator_escrow_pubkey, p2)));
    let r5 = d3 + lr4();
    lemma_concat_split(v, p2, lr3(), r5);
    let p2b = p2 + lr3().len() as int;
    lemma_concat_split(v, p2b, d3, lr4());
    let p3 = p2b + d3.len() as int;
    assert(lr4().len() == 1 && lr4()[0] == '}') by {
        reveal_strlit("}");
    };
    assert(v[p3] == lr4()[0]) by {
        assert(v.subrange(p3, p3 + 1)[0] == lr4()[0]);
    };
    lemma_scan_dec_complete(v, p2b, r.escrow_start_time);
    assert(scan_dec(v, p2b) == Some((r.escrow_start_time, p3)));
    assert(p3 + lr4().len() == v.len());
    assert(parse_registration_v(v)->Some_0 =~= r);
}

/// Encodes an escrow registration.
pub fn serialize_registration(r: &crate::model::EscrowRegistration) -> (out: String)
    ensures
        out@ == registration_json(r@),
{
    let mut w: Vec<char> = Vec::new();
    crate::textenc::push_chars(&mut w, "{\"escrow_id_hex\":\"");
    crate::textenc::push_escaped(&mut w, self_str(&r.escrow_id_hex));
    w.push('"');
    crate::textenc::push_chars(&mut w, ",\"coordinator_escrow_pubkey\":\"");
    crate::textenc::push_escaped(&mut w, self_str(&r.coordinator_escrow_pubkey));
    w.push('"');
    crate::textenc::push_chars(&mut w, ",\"escrow_start_time\":");
    crate::textenc::push_dec(&mut w, r.escrow_start_time);
    crate::textenc::push_chars(&mut w, "}");
    proof {
        assert(w@ =~= registration_json(r@));
    }
    crate::textenc::string_of(&w)
}

/// Borrows a string's slice form.
fn self_str(s: &String) -> (r: &str)
    ensures
        r@ == s@,
{
    s.as_str()
}

/// Decodes an escrow registration; accepts exactly the canonical encoding.
pub fn parse_registration(s: &str) -> (r: Option<crate::model::EscrowRegistration>)
    ensures
        match r {
            Some(reg) => parse_registration_v(s@) == Some(reg@),
            None => parse_registration_v(s@) is None,
        },
{
    proof {
        reveal(parse_registration_v);
    }
    let v: Vec<char> = crate::textenc::chars_of(s);
    let p0: usize = match match_lit(&v, 0, "{\"escrow_id_hex\":\"") {
        Some(p) => p,
        None => {
            return None;
        },
    };
    let (id, p1): (Vec<char>, usize) = match scan_jstring(&v, p0) {
        Some(x) => x,
        None => {
            return None;
        },
    };
    let p1b: usize = match match_lit(&v, p1, ",\"coordinator_escrow_pubkey\":\"") {
        Some(p) => p,
        None => {
            return None;
        },
    };
    let (pk, p2): (Vec<char>, usize) = match scan_jstring(&v, p1b) {
        Some(x) => x,
        None => {
            return None;
        },
    };
    let p2b: usize = match match_lit(&v, p2, ",\"escrow_start_time\":") {
        Some(p) => p,
        None => {
            return None;
        },
    };
    let (ts, p3): (u64, usize) = match scan_decimal(&v, p2b) {
        Some(x) => x,
        None => {
            return None;
        },
    };
    let p4: usize = match match_lit(&v, p3, "}") {
        Some(p) => p,
        None => {
            return None;
        },
    };
    if p4 != v.len() {
        return None;
    }
    let reg = crate::model::EscrowRegistration {
        escrow_id_hex: crate::textenc::string_of(&id),
        coordinator_escrow_pubkey: crate::textenc::string_of(&pk),
        escrow_start_time: ts,
    };
    proof {
        assert(parse_registration_v(s@)->Some_0 =~= reg@);
    }
    Some(reg)
}

/// Opening literal of a contract: up to the description's first character.
pub open spec fn lc1() -> Seq<char> {
    "{\"trade_description\":\""@
}

/// Literal before the amount.
pub open spec fn lc2() -> Seq<char> {
    ",\"trade_amount_sat\":"@
}

/// Literal before the seller identity key.
pub open spec fn lc3() -> Seq<char> {
    ",\"npubkey_seller\":\""@
}

/// Literal before the buyer identity key.
pub open spec fn lc4() -> Seq<char> {
    ",\"npubkey_buyer\":\""@
}

/// Literal before the coordinator identity key.
pub open spec fn lc5() -> Seq<char> {
    ",\"npubkey_coordinator\":\""@
}

/// Literal before the time limit.
pub open spec fn lc6() -> Seq<char> {
    ",\"time_limit\":"@
}

/// Literal before the seller ecash key.
pub open spec fn lc7() -> Seq<char> {
    ",\"seller_ecash_public_key\":\""@
}

/// Literal before the buyer ecash key.
pub open spec fn lc8() -> Seq<char> {
    ",\"buyer_ecash_public_key\":\""@
}

/// Closing literal of a contract.
pub open spec fn lc9() -> Seq<char> {
    "}"@
}

/// The canonical encoding of a trade contract. Its byte-for-byte form is the
/// trade's matching key.
pub open spec fn contract_json(c: crate::model::TradeContractV) -> Seq<char> {
    lc1() + esc(c.trade_description) + quote_seq() + lc2() + dec_of(c.trade_amount_sat) + lc3()
        + esc(c.npubkey_seller) + quote_seq() + lc4() + esc(c.npubkey_buyer) + quote_seq() + lc5()
        + esc(c.npubkey_coordinator) + quote_seq() + lc6() + dec_of(c.time_limit) + lc7() + esc(
        c.seller_ecash_public_key,
    ) + quote_seq() + lc8() + esc(c.buyer_ecash_public_key) + quote_seq() + lc9()
}

/// The canonical parse of a trade contract.
#[verifier::opaque]
pub open spec fn parse_contract_v(v: Seq<char>) -> Option<crate::model::TradeContractV> {
    if !lit_at(v, 0, lc1()) {
        None
    } else {
        match scan_jstr(v, lc1().len() as int) {
            None => None,
            Some((td, p1)) => {
                if !lit_at(v, p1, lc2()) {
                    None
                } else {
                    match scan_dec(v, p1 + lc2().len()) {
                        None => None,
                        Some((amt, p2)) => {
                            if !lit_at(v, p2, lc3()) {
                                None
                            } else {
                                match scan_jstr(v, p2 + lc3().len()) {
                                    None => None,
                                    Some((ns, p3)) => {
                                        if !lit_at(v, p3, lc4()) {
                                            None
                                        } else {
                                            match scan_jstr(v, p3 + lc4().len()) {
                                                None => None,
                                                Some((nb, p4)) => {
                                                    if !lit_at(v, p4, lc5()) {
                                                        None
                                                    } else {
                                                        match scan_jstr(v, p4 + lc5().len()) {
                                                            None => None,
                                                            Some((nc, p5)) => parse_contract_tail(
                                                                v,
                                                                td,
                                                                amt,
                                                                ns,
                                                                nb,
                                                                nc,
                                                                p5,
                                                            ),
                                                        }
                                                    }
                                                },
                                            }
                                        }
                                    },
                                }
                            }
                        },
                    }
                }
            },
        }
    }
}

/// The canonical parse of a trade contract, from the time limit onward.
#[verifier::opaque]
pub open spec fn parse_contract_tail(
    v: Seq<char>,
    td: Seq<char>,
    amt: u64,
    ns: Seq<char>,
    nb: Seq<char>,
    nc: Seq<char>,
    p5: int,
) -> Option<crate::model::TradeContractV> {
    if !lit_at(v, p5, lc6()) {
        None
    } else {
        match scan_dec(v, p5 + lc6().len()) {
            None => None,
            Some((tl, p6)) => {
                if !lit_at(v, p6, lc7()) {
                    None
                } else {
                    match scan_jstr(v, p6 + lc7().len()) {
                        None => None,
                        Some((sk, p7)) => {
                            if !lit_at(v, p7, lc8()) {
                                None
                            } else {
                                match scan_jstr(v, p7 + lc8().len()) {
                                    None => None,
                                    Some((bk, p8)) => {
                                        if lit_at(v, p8, lc9()) && p8 + lc9().len() == v.len() {
                                            Some(
                                                crate::model::TradeContractV {
                                                    trade_description: td,
                                                    trade_amount_sat: amt,
                                                    npubkey_seller: ns,
                                                    npubkey_buyer: nb,
                                                    npubkey_coordinator: nc,
                                                    time_limit: tl,
                                                    seller_ecash_public_key: sk,
                                                    buyer_ecash_public_key: bk,
                                                },
                                            )
                                        } else {
                                            None
                                        }
                                    },
                                }
                            }
                        },
                    }
                }
            },
        }
    }
}

/// A successful contract parse re-encodes to exactly the input.
#[verifier::spinoff_prover]
#[verifier::rlimit(60)]
pub proof fn lemma_parse_contract_sound(v: Seq<char>)
    requires
        parse_contract_v(v) is Some,
    ensures
        v == contract_json(parse_contract_v(v)->Some_0),
{
    let p0 = lc1().len() as int;
    let (td, p1) = scan_jstr(v, p0)->Some_0;
    reveal(parse_contract_v);
    reveal(parse_contract_tail);
    lemma_scan_jstr_sound(v, p0);
    let p1b = p1 + lc2().len() as int;
    let (amt, p2) = scan_dec(v, p1b)->Some_0;
    lemma_scan_dec_sound(v, p1b);
    let p2b = p2 + lc3().len() as int;
    let (ns, p3) = scan_jstr(v, p2b)->Some_0;
    lemma_scan_jstr_sound(v, p2b);
    let p3b = p3 + lc4().len() as int;
    let (nb, p4) = scan_jstr(v, p3b)->Some_0;
    lemma_scan_jstr_sound(v, p3b);
    let p4b = p4 + lc5().len() as int;
    let (nc, p5) = scan_jstr(v, p4b)->Some_0;
    lemma_scan_jstr_sound(v, p4b);
    let p5b = p5 + lc6().len() as int;
    let (tl, p6) = scan_dec(v, p5b)->Some_0;
    lemma_scan_dec_sound(v, p5b);
    let p6b = p6 + lc7().len() as int;
    let (sk, p7) = scan_jstr(v, p6b)->Some_0;
    lemma_scan_jstr_sound(v, p6b);
    let p7b = p7 + lc8().len() as int;
    let (bk, p8) = scan_jstr(v, p7b)->Some_0;
    lemma_scan_jstr_sound(v, p7b);
    let w1 = lc1();
    let w2 = w1 + esc(td) + quote_seq();
    let w3 = w2 + lc2();
    let w4 = w3 + dec_of(amt);
    let w5 = w4 + lc3();
    let w6 = w5 + esc(ns) + quote_seq();
    let w7 = w6 + lc4();
    let w8 = w7 + esc(nb) + quote_seq();
    let w9 = w8 + lc5();
    let w10 = w9 + esc(nc) + quote_seq();
    let w11 = w10 + lc6();
    let w12 = w11 + dec_of(tl);
    let w13 = w12 + lc7();
    let w14 = w13 + esc(sk) + quote_seq();
    let w15 = w14 + lc8();
    let w16 = w15 + esc(bk) + quote_seq();
    let w17 = w16 + lc9();
    assert(v.subrange(0, p0) == w1);
    lemma_prefix_glue(v, 0, p0, p1);
    assert(w1 + (esc(td) + quote_seq()) =~= w2);
    assert(v.subrange(0, p1) == w2);
    lemma_prefix_glue(v, 0, p1, p1b);
    assert(v.subrange(0, p1b) == w3);
    lemma_prefix_glue(v, 0, p1b, p2);
    assert(v.subrange(0, p2) == w4);
    lemma_prefix_glue(v, 0, p2, p2b);
    assert(v.subrange(0, p2b) == w5);
    lemma_prefix_glue(v, 0, p2b, p3);
    assert(w5 + (esc(ns) + quote_seq()) =~= w6);
    assert(v.subrange(0, p3) == w6);
    lemma_prefix_glue(v, 0, p3, p3b);
    assert(v.subrange(0, p3b) == w7);
    lemma_prefix_glue(v, 0, p3b, p4);
    assert(w7 + (esc(nb) + quote_seq()) =~= w8);
    assert(v.subrange(0, p4) == w8);
    lemma_prefix_glue(v, 0, p4, p4b);
    assert(v.subrange(0, p4b) == w9);
    lemma_prefix_glue(v, 0, p4b, p5);
    assert(w9 + (esc(nc) + quote_seq()) =~= w10);
    assert(v.subrange(0, p5) == w10);
    lemma_prefix_glue(v, 0, p5, p5b);
    assert(v.subrange(0, p5b) == w11);
    lemma_prefix_glue(v, 0, p5b, p6);
    assert(v.subrange(0, p6) == w12);
    lemma_prefix_glue(v, 0, p6, p6b);
    assert(v.subrange(0, p6b) == w13);
    lemma_prefix_glue(v, 0, p6b, p7);
    assert(w13 + (esc(sk) + quote_seq()) =~= w14);
    assert(v.subrange(0, p7) == w14);
    lemma_prefix_glue(v, 0, p7, p7b);
    assert(v.subrange(0, p7b) == w15);
    lemma_prefix_glue(v, 0, p7b, p8);
    assert(w15 + (esc(bk) + quote_seq()) =~= w16);
    assert(v.subrange(0, p8) == w16);
    assert(v.subrange(p8, v.len() as int) == lc9()) by {
        assert(p8 + lc9().len() == v.len());
    };
    lemma_prefix_glue(v, 0, p8, v.len() as int);
    assert(v.subrange(0, v.len() as int) == w17);
    assert(v.subrange(0, v.len() as int) =~= v);
    let c = parse_contract_v(v)->Some_0;
    assert(contract_json(c) == w17);
}

/// Reassociates the flat concatenation of the pieces of an encoded record
/// into the nested form that is split off the front piece by piece.
#[verifier::spinoff_prover]
#[verifier::rlimit(60)]
proof fn lemma_contract_reassoc(
    p1: Seq<char>,
    p2: Seq<char>,
    p3: Seq<char>,
    p4: Seq<char>,
    p5: Seq<char>,
    p6: Seq<char>,
    p7: Seq<char>,
    p8: Seq<char>,
    p9: Seq<char>,
    p10: Seq<char>,
    p11: Seq<char>,
    p12: Seq<char>,
    p13: Seq<char>,
    p14: Seq<char>,
    p15: Seq<char>,
    p16: Seq<char>,
    p17: Seq<char>,
    p18: Seq<char>,
    p19: Seq<char>,
    p20: Seq<char>,
    p21: Seq<char>,
    p22: Seq<char>,
    p23: Seq<char>,
)
    ensures
        p1 + p2 + p3 + p4 + p5 + p6 + p7 + p8 + p9 + p10 + p11 + p12 + p13 + p14 + p15 + p16 + p17 + p18 + p19 + p20 + p21 + p22 + p23 == p1 + ((p2 + p3) + (p4 + (p5 + (p6 + ((p7 + p8) + (p9 + ((p10 + p11) + (p12 + ((p13 + p14) + (p15 + (p16 + (p17 + ((p18 + p19) + (p20 + ((p21 + p22) + p23))))))))))))))),
{
    let w1 = p1;
    let w2 = w1 + p2;
    let w3 = w2 + p3;
    let w4 = w3 + p4;
    let w5 = w4 + p5;
    let w6 = w5 + p6;
    let w7 = w6 + p7;
    let w8 = w7 + p8;
    let w9 = w8 + p9;
    let w10 = w9 + p10;
    let w11 = w10 + p11;
    let w12 = w11 + p12;
    let w13 = w12 + p13;
    let w14 = w13 + p14;
    let w15 = w14 + p15;
    let w16 = w15 + p16;
    let w17 = w16 + p17;
    let w18 = w17 + p18;
    let w19 = w18 + p19;
    let w20 = w19 + p20;
    let w21 = w20 + p21;
    let w22 = w21 + p22;
    let w23 = w22 + p23;
    let r8 = (p21 + p22) + p23;
    let r7b = p20 + r8;
    let r7 = (p18 + p19) + r7b;
    let r6b = p17 + r7;
    let r6 = p16 + r6b;
    let r5b = p15 + r6;
    let r5 = (p13 + p14) + r5b;
    let r4b = p12 + r5;
    let r4 = (p10 + p11) + r4b;
    let r3b = p9 + r4;
    let r3 = (p7 + p8) + r3b;
    let r2b = p6 + r3;
    let r2 = p5 + r2b;
    let r1b = p4 + r2;
    let r1 = (p2 + p3) + r1b;
    assert(w23 =~= w20 + r8);
    assert(w20 + r8 =~= w19 + r7b);
    assert(w19 + r7b =~= w17 + r7);
    assert(w17 + r7 =~= w16 + r6b);
    assert(w16 + r6b =~= w15 + r6);
    assert(w15 + r6 =~= w14 + r5b);
    assert(w14 + r5b =~= w12 + r5);
    assert(w12 + r5 =~= w11 + r4b);
    assert(w11 + r4b =~= w9 + r4);
    assert(w9 + r4 =~= w8 + r3b);
    assert(w8 + r3b =~= w6 + r3);
    assert(w6 + r3 =~= w5 + r2b);
    assert(w5 + r2b =~= w4 + r2);
    assert(w4 + r2 =~= w3 + r1b);
    assert(w3 + r1b =~= w1 + r1);
}

/// The canonical contract encoding, regrouped so that each piece can be
/// split off the front in parsing order.
#[verifier::rlimit(60)]
pub proof fn lemma_contract_regroup(c: crate::model::TradeContractV)
    ensures
        contract_json(c) == lc1() + ((esc(c.trade_description) + quote_seq()) + (lc2() + (dec_of(
            c.trade_amount_sat,
        ) + (lc3() + ((esc(c.npubkey_seller) + quote_seq()) + (lc4() + ((esc(c.npubkey_buyer)
            + quote_seq()) + (lc5() + ((esc(c.npubkey_coordinator) + quote_seq()) + (lc6() + (
        dec_of(c.time_limit) + (lc7() + ((esc(c.seller_ecash_public_key) + quote_seq()) + (lc8()
            + ((esc(c.buyer_ecash_public_key) + quote_seq()) + lc9()))))))))))))))),
{
    lemma_contract_reassoc(
        lc1(),
        esc(c.trade_description),
        quote_seq(),
        lc2(),
        dec_of(c.trade_amount_sat),
        lc3(),
        esc(c.npubkey_seller),
        quote_seq(),
        lc4(),
        esc(c.npubkey_buyer),
        quote_seq(),
        lc5(),
        esc(c.npubkey_coordinator),
        quote_seq(),
        lc6(),
        dec_of(c.time_limit),
        lc7(),
        esc(c.seller_ecash_public_key),
        quote_seq(),
        lc8(),
        esc(c.buyer_ecash_public_key),
        quote_seq(),
        lc9(),
    );
}

/// The canonical encoding of a contract parses back to exactly it.
#[verifier::spinoff_prover]
#[verifier::rlimit(100)]
pub proof fn lemma_parse_contract_complete(v: Seq<char>, c: crate::model::TradeContractV)
    requires
        v == contract_json(c),
    ensures
        parse_contract_v(v) == Some(c),
{
    reveal(parse_contract_v);
    let td = c.trade_description;
    let ns = c.npubkey_seller;
    let nb = c.npubkey_buyer;
    let nc = c.npubkey_coordinator;
    let sk = c.seller_ecash_public_key;
    let bk = c.buyer_ecash_public_key;
    let t1 = esc(td) + quote_seq();
    let d2 = dec_of(c.trade_amount_sat);
    let t3 = esc(ns) + quote_seq();
    let t4 = esc(nb) + quote_seq();
    let t5 = esc(nc) + quote_seq();
    let d6 = dec_of(c.time_limit);
    let t7 = esc(sk) + quote_seq();
    let t8 = esc(bk) + quote_seq();
    let r8 = t8 + lc9();
    let r7b = lc8() + r8;
    let r7 = t7 + r7b;
    let r6b = lc7() + r7;
    let r6 = d6 + r6b;
    let r5b = lc6() + r6;
    let r5 = t5 + r5b;
    let r4b = lc5() + r5;
    let r4 = t4 + r4b;
    let r3b = lc4() + r4;
    let r3 = t3 + r3b;
    let r2b = lc3() + r3;
    let r2 = d2 + r2b;
    let r1b = lc2() + r2;
    let r1 = t1 + r1b;
    lemma_contract_regroup(c);
    assert(v == lc1() + r1);
    assert(v.subrange(0, v.len() as int) =~= v);
    lemma_concat_split(v, 0, lc1(), r1);
    let p0 = lc1().len() as int;
    lemma_concat_split(v, p0, t1, r1b);
    lemma_scan_jstr_complete(v, p0, td);
    let p1 = p0 + t1.len() as int;
    assert(scan_jstr(v, p0) == Some((td, p1)));
    lemma_concat_split(v, p1, lc2(), r2);
    let p1b = p1 + lc2().len() as int;
    lemma_concat_split(v, p1b, d2, r2b);
    let p2 = p1b + d2.len() as int;
    assert(lc3().len() >= 1 && lc3()[0] == ',') by {
        reveal_strlit(",\"npubkey_seller\":\"");
    };
    assert(v[p2] == lc3()[0]) by {
        assert(v.subrange(p2, p2 + lc3().len() as int)[0] == lc3()[0]);
    };
    lemma_scan_dec_complete(v, p1b, c.trade_amount_sat);
    assert(scan_dec(v, p1b) == Some((c.trade_amount_sat, p2)));
    lemma_contract_mid_complete(v, c, p2);
    let p2b = p2 + lc3().len() as int;
    let p3 = p2b + t3.len() as int;
    let p3b = p3 + lc4().len() as int;
    let p4 = p3b + t4.len() as int;
    let p4b = p4 + lc5().len() as int;
    let p5 = p4b + t5.len() as int;
    lemma_contract_tail_complete(v, c, td, c.trade_amount_sat, ns, nb, nc, p5);
    assert(parse_contract_v(v) == parse_contract_tail(
        v,
        td,
        c.trade_amount_sat,
        ns,
        nb,
        nc,
        p5,
    ));
}

/// The middle of contract completeness: the three identity keys.
#[verifier::spinoff_prover]
#[verifier::rlimit(100)]
proof fn lemma_contract_mid_complete(v: Seq<char>, c: crate::model::TradeContractV, p2: int)
    requires
        0 <= p2 <= v.len(),
        v.subrange(p2, v.len() as int) == lc3() + ((esc(c.npubkey_seller) + quote_seq()) + (lc4()
            + ((esc(c.npubkey_buyer) + quote_seq()) + (lc5() + ((esc(c.npubkey_coordinator)
            + quote_seq()) + (lc6() + (dec_of(c.time_limit) + (lc7() + ((esc(
            c.seller_ecash_public_key,
        ) + quote_seq()) + (lc8() + ((esc(c.buyer_ecash_public_key) + quote_seq())
            + lc9()))))))))))),
    ensures
        lit_at(v, p2, lc3()),
        scan_jstr(v, p2 + lc3().len()) == Some(
            (c.npubkey_seller, p2 + lc3().len() + (esc(c.npubkey_seller) + quote_seq()).len()),
        ),
        lit_at(v, p2 + lc3().len() + (esc(c.npubkey_seller) + quote_seq()).len(), lc4()),
        scan_jstr(
            v,
            p2 + lc3().len() + (esc(c.npubkey_seller) + quote_seq()).len() + lc4().len(),
        ) == Some(
            (
                c.npubkey_buyer,
                p2 + lc3().len() + (esc(c.npubkey_seller) + quote_seq()).len() + lc4().len() + (esc(
                    c.npubkey_buyer,
                ) + quote_seq()).len(),
            ),
        ),
        lit_at(
            v,
            p2 + lc3().len() + (esc(c.npubkey_seller) + quote_seq()).len() + lc4().len() + (esc(
                c.npubkey_buyer,
            ) + quote_seq()).len(),
            lc5(),
        ),
        scan_jstr(
            v,
            p2 + lc3().len() + (esc(c.npubkey_seller) + quote_seq()).len() + lc4().len() + (esc(
                c.npubkey_buyer,
            ) + quote_seq()).len() + lc5().len(),
        ) == Some(
            (
                c.npubkey_coordinator,
                p2 + lc3().len() + (esc(c.npubkey_seller) + quote_seq()).len() + lc4().len() + (esc(
                    c.npubkey_buyer,
                ) + quote_seq()).len() + lc5().len() + (esc(c.npubkey_coordinator)
                    + quote_seq()).len(),
            ),
        ),
        v.subrange(
            p2 + lc3().len() + (esc(c.npubkey_seller) + quote_seq()).len() + lc4().len() + (esc(
                c.npubkey_buyer,
            ) + quote_seq()).len() + lc5().len() + (esc(c.npubkey_coordinator)
                + quote_seq()).len(),
            v.len() as int,
        ) == lc6() + (dec_of(c.time_limit) + (lc7() + ((esc(c.seller_ecash_public_key)
            + quote_seq()) + (lc8() + ((esc(c.buyer_ecash_public_key) + quote_seq()) + lc9()))))),
{
    let ns = c.npubkey_seller;
    let nb = c.npubkey_buyer;
    let nc = c.npubkey_coordinator;
    let t3 = esc(ns) + quote_seq();
    let t4 = esc(nb) + quote_seq();
    let t5 = esc(nc) + quote_seq();
    let d6 = dec_of(c.time_limit);
    let t7 = esc(c.seller_ecash_public_key) + quote_seq();
    let t8 = esc(c.buyer_ecash_public_key) + quote_seq();
    let r8 = t8 + lc9();
    let r7b = lc8() + r8;
    let r7 = t7 + r7b;
    let r6b = lc7() + r7;
    let r6 = d6 + r6b;
    let r5b = lc6() + r6;
    let r5 = t5 + r5b;
    let r4b = lc5() + r5;
    let r4 = t4 + r4b;
    let r3b = lc4() + r4;
    let r3 = t3 + r3b;
    lemma_concat_split(v, p2, lc3(), r3);
    let p2b = p2 + lc3().len() as int;
    lemma_concat_split(v, p2b, t3, r3b);
    lemma_scan_jstr_complete(v, p2b, ns);
    let p3 = p2b + t3.len() as int;
    lemma_concat_split(v, p3, lc4(), r4);
    let p3b = p3 + lc4().len() as int;
    lemma_concat_split(v, p3b, t4, r4b);
    lemma_scan_jstr_complete(v, p3b, nb);
    let p4 = p3b + t4.len() as int;
    lemma_concat_split(v, p4, lc5(), r5);
    let p4b = p4 + lc5().len() as int;
    lemma_concat_split(v, p4b, t5, r5b);
    lemma_scan_jstr_complete(v, p4b, nc);
}

/// The tail of contract completeness: from the time limit onward.
#[verifier::spinoff_prover]
#[verifier::rlimit(100)]
proof fn lemma_contract_tail_complete(
    v: Seq<char>,
    c: crate::model::TradeContractV,
    td: Seq<char>,
    amt: u64,
    ns: Seq<char>,
    nb: Seq<char>,
    nc: Seq<char>,
    p5: int,
)
    requires
        0 <= p5 <= v.len(),
        v.subrange(p5, v.len() as int) == lc6() + (dec_of(c.time_limit) + (lc7() + ((esc(
            c.seller_ecash_public_key,
        ) + quote_seq()) + (lc8() + ((esc(c.buyer_ecash_public_key) + quote_seq()) + lc9()))))),
        td == c.trade_description,
        amt == c.trade_amount_sat,
        ns == c.npubkey_seller,
        nb == c.npubkey_buyer,
        nc == c.npubkey_coordinator,
    ensures
        parse_contract_tail(v, td, amt, ns, nb, nc, p5) == Some(c),
{
    let sk = c.seller_ecash_public_key;
    let bk = c.buyer_ecash_public_key;
    let d6 = dec_of(c.time_limit);
    reveal(parse_contract_tail);
    let t7 = esc(sk) + quote_seq();
    let t8 = esc(bk) + quote_seq();
    let r8 = t8 + lc9();
    let r7b = lc8() + r8;
    let r7 = t7 + r7b;
    let r6b = lc7() + r7;
    let r6 = d6 + r6b;
    lemma_concat_split(v, p5, lc6(), r6);
    let p5b = p5 + lc6().len() as int;
    lemma_concat_split(v, p5b, d6, r6b);
    let p6 = p5b + d6.len() as int;
    assert(lc7().len() >= 1 && lc7()[0] == ',') by {
        reveal_strlit(",\"seller_ecash_public_key\":\"");
    };
    assert(v[p6] == lc7()[0]) by {
        assert(v.subrange(p6, p6 + lc7().len() as int)[0] == lc7()[0]);
    };
    lemma_scan_dec_complete(v, p5b, c.time_limit);
    assert(scan_dec(v, p5b) == Some((c.time_limit, p6)));
    lemma_concat_split(v, p6, lc7(), r7);
    let p6b = p6 + lc7().len() as int;
    lemma_concat_split(v, p6b, t7, r7b);
    lemma_scan_jstr_complete(v, p6b, sk);
    let p7 = p6b + t7.len() as int;
    assert(scan_jstr(v, p6b) == Some((sk, p7)));
    lemma_concat_split(v, p7, lc8(), r8);
    let p7b = p7 + lc8().len() as int;
    lemma_concat_split(v, p7b, t8, lc9());
    lemma_scan_jstr_complete(v, p7b, bk);
    let p8 = p7b + t8.len() as int;
    assert(scan_jstr(v, p7b) == Some((bk, p8)));
    assert(p8 + lc9().len() == v.len());
    assert(parse_contract_tail(v, td, amt, ns, nb, nc, p5)->Some_0 =~= c);
}

/// Encodes a trade contract into its canonical form.
pub fn serialize_contract(c: &crate::model::TradeContract) -> (out: String)
    ensures
        out@ == contract_json(c@),
{
    let mut w: Vec<char> = Vec::new();
    crate::textenc::push_chars(&mut w, "{\"trade_description\":\"");
    crate::textenc::push_escaped(&mut w, self_str(&c.trade_description));
    w.push('"');
    crate::textenc::push_chars(&mut w, ",\"trade_amount_sat\":");
    crate::textenc::push_dec(&mut w, c.trade_amount_sat);
    crate::textenc::push_chars(&mut w, ",\"npubkey_seller\":\"");
    crate::textenc::push_escaped(&mut w, self_str(&c.npubkey_seller));
    w.push('"');
    crate::textenc::push_chars(&mut w, ",\"npubkey_buyer\":\"");
    crate::textenc::push_escaped(&mut w, self_str(&c.npubkey_buyer));
    w.push('"');
    crate::textenc::push_chars(&mut w, ",\"npubkey_coordinator\":\"");
    crate::textenc::push_escaped(&mut w, self_str(&c.npubkey_coordinator));
    w.push('"');
    crate::textenc::push_chars(&mut w, ",\"time_limit\":");
    crate::textenc::push_dec(&mut w, c.time_limit);
    crate::textenc::push_chars(&mut w, ",\"seller_ecash_public_key\":\"");
    crate::textenc::push_escaped(&mut w, self_str(&c.seller_ecash_public_key));
    w.push('"');
    crate::textenc::push_chars(&mut w, ",\"buyer_ecash_public_key\":\"");
    crate::textenc::push_escaped(&mut w, self_str(&c.buyer_ecash_public_key));
    w.push('"');
    crate::textenc::push_chars(&mut w, "}");
    proof {
        assert(w@ =~= contract_json(c@));
    }
    crate::textenc::string_of(&w)
}

/// Decodes a trade contract; accepts exactly the canonical encoding.
pub fn parse_contract(s: &str) -> (r: Option<crate::model::TradeContract>)
    ensures
        match r {
            Some(c) => parse_contract_v(s@) == Some(c@),
            None => parse_contract_v(s@) is None,
        },
{
    proof {
        reveal(parse_contract_v);
        reveal(parse_contract_tail);
    }
    let v: Vec<char> = crate::textenc::chars_of(s);
    let p0: usize = match match_lit(&v, 0, "{\"trade_description\":\"") {
        Some(p) => p,
        None => {
            return None;
        },
    };
    let (td, p1): (Vec<char>, usize) = match scan_jstring(&v, p0) {
        Some(x) => x,
        None => {
            return None;
        },
    };
    let p1b: usize = match match_lit(&v, p1, ",\"trade_amount_sat\":") {
        Some(p) => p,
        None => {
            return None;
        },
    };
    let (amt, p2): (u64, usize) = match scan_decimal(&v, p1b) {
        Some(x) => x,
        None => {
            return None;
        },
    };
    let p2b: usize = match match_lit(&v, p2, ",\"npubkey_seller\":\"") {
        Some(p) => p,
        None => {
            return None;
        },
    };
    let (ns, p3): (Vec<char>, usize) = match scan_jstring(&v, p2b) {
        Some(x) => x,
        None => {
            return None;
        },
    };
    let p3b: usize = match match_lit(&v, p3, ",\"npubkey_buyer\":\"") {
        Some(p) => p,
        None => {
            return None;
        },
    };
    let (nb, p4): (Vec<char>, usize) = match scan_jstring(&v, p3b) {
        Some(x) => x,
        None => {
            return None;
        },
    };
    let p4b: usize = match match_lit(&v, p4, ",\"npubkey_coordinator\":\"") {
        Some(p) => p,
        None => {
            return None;
        },
    };
    let (nc, p5): (Vec<char>, usize) = match scan_jstring(&v, p4b) {
        Some(x) => x,
        None => {
            return None;
        },
    };
    let p5b: usize = match match_lit(&v, p5, ",\"time_limit\":") {
        Some(p) => p,
        None => {
            return None;
        },
    };
    let (tl, p6): (u64, usize) = match scan_decimal(&v, p5b) {
        Some(x) => x,
        None => {
            return None;
        },
    };
    let p6b: usize = match match_lit(&v, p6, ",\"seller_ecash_public_key\":\"") {
        Some(p) => p,
        None => {
            return None;
        },
    };
    let (sk, p7): (Vec<char>, usize) = match scan_jstring(&v, p6b) {
        Some(x) => x,
        None => {
            return None;
        },
    };
    let p7b: usize = match match_lit(&v, p7, ",\"buyer_ecash_public_key\":\"") {
        Some(p) => p,
        None => {
            return None;
        },
    };
    let (bk, p8): (Vec<char>, usize) = match scan_jstring(&v, p7b) {
        Some(x) => x,
        None => {
            return None;
        },
    };
    let p9: usize = match match_lit(&v, p8, "}") {
        Some(p) => p,
        None => {
            return None;
        },
    };
    if p9 != v.len() {
        return None;
    }
    let c = crate::model::TradeContract {
        trade_description: crate::textenc::string_of(&td),
        trade_amount_sat: amt,
        npubkey_seller: crate::textenc::string_of(&ns),
        npubkey_buyer: crate::textenc::string_of(&nb),
        npubkey_coordinator: crate::textenc::string_of(&nc),
        time_limit: tl,
        seller_ecash_public_key: crate::textenc::string_of(&sk),
        buyer_ecash_public_key: crate::textenc::string_of(&bk),
    };
    proof {
        assert(parse_contract_v(s@)->Some_0 =~= c@);
    }
    Some(c)
}

} // verus!
