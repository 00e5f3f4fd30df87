use vstd::prelude::*;
use vstd::utf8::{
    decode_utf8, encode_utf8, encode_utf8_decode_utf8, encode_utf8_valid_utf8, valid_utf8,
};
use crate::cell::{bytes_of, CellView};
use crate::number::{
    all_digits, ascii_lower, digits_value, find_either, infinity_text, inf_text, int_of, is_decimal,
    is_digit, is_exponent, is_float_syntax, is_mantissa, is_sign, lemma_find_either, nan_text,
    same_ignoring_case,
};
use crate::tokenizer::{
    bare_token, emit, false_text, is_separator, lex, scan_byte, start_state, tokens, true_text,
    ScanState,
};

verus! {

/// A byte that can stand inside an unquoted token.
pub open spec fn is_word_byte(b: u8) -> bool {
    !is_separator(b) && b != 34 && b != 39
}

/// The decimal digits of `n`, most significant first.
pub open spec fn digits_of(n: nat) -> Seq<u8>
    decreases n,
{
    if n < 10 {
        seq![(48 + n) as u8]
    } else {
        digits_of(n / 10).push((48 + n % 10) as u8)
    }
}

/// The decimal text of an integer, with a `-` when it is negative.
pub open spec fn int_text(v: i64) -> Seq<u8> {
    if v < 0 {
        seq![45u8] + digits_of((-v) as nat)
    } else {
        digits_of(v as nat)
    }
}

/// A cell that an unquoted token makes: an integer, a boolean, a float whose
/// text is a float literal and not an integer literal, or a word whose text
/// is not empty, holds no separator or quote, and reads as no number or
/// boolean.
pub open spec fn is_literal(c: CellView) -> bool {
    match c {
        CellView::Integer(_) => true,
        CellView::Boolean(_) => true,
        CellView::Float(t) => is_float_syntax(bytes_of(t)) && int_of(bytes_of(t)) is None,
        CellView::Word(w) => {
            let b = bytes_of(w);
            &&& b.len() > 0
            &&& forall|j: int| 0 <= j < b.len() ==> is_word_byte(#[trigger] b[j])
            &&& int_of(b) is None
            &&& !is_float_syntax(b)
            &&& b != true_text()
            &&& b != false_text()
        },
        _ => false,
    }
}

/// The text of a literal cell.
pub open spec fn literal_text(c: CellView) -> Seq<u8> {
    match c {
        CellView::Integer(v) => int_text(v),
        CellView::Boolean(b) => if b {
            true_text()
        } else {
            false_text()
        },
        CellView::Float(t) => bytes_of(t),
        CellView::Word(w) => bytes_of(w),
        _ => Seq::empty(),
    }
}

/// The texts of the cells, separated by single spaces.
pub open spec fn literals_text(cs: Seq<CellView>) -> Seq<u8>
    decreases cs.len(),
{
    if cs.len() == 0 {
        Seq::empty()
    } else if cs.len() == 1 {
        literal_text(cs[0])
    } else {
        literal_text(cs[0]) + seq![32u8] + literals_text(cs.drop_first())
    }
}

pub open spec fn word_state() -> ScanState {
    ScanState { word_found: true, in_string: false, in_comment: false, escape: false }
}

/// Tokenizer round trip: integers, booleans, floats and plain words written
/// out separated by spaces tokenize back to the same cells.
pub proof fn law_literal_round_trip(cs: Seq<CellView>)
    requires
        forall|i: int| 0 <= i < cs.len() ==> is_literal(#[trigger] cs[i]),
    ensures
        tokens(literals_text(cs)) == cs,
    decreases cs.len(),
{
    if cs.len() == 0 {
        assert(tokens(literals_text(cs)) =~= cs);
    } else {
        let c = cs[0];
        assert(is_literal(c));
        lemma_literal(c);
        let w = literal_text(c);
        let bytes = literals_text(cs);
        if cs.len() == 1 {
            assert(bytes.subrange(0, w.len() as int) =~= w);
            lemma_scan_word(bytes, 0, w, w.len() as int);
            assert(w.take(w.len() as int) =~= w);
            assert(tokens(bytes) =~= cs);
        } else {
            let rest = cs.drop_first();
            assert forall|i: int| 0 <= i < rest.len() implies is_literal(#[trigger] rest[i]) by {
                assert(rest[i] == cs[i + 1]);
            }
            law_literal_round_trip(rest);
            let head = w + seq![32u8];
            assert(bytes =~= head + literals_text(rest));
            assert(bytes.subrange(0, w.len() as int) =~= w);
            lemma_scan_word(bytes, 0, w, w.len() as int);
            assert(w.take(w.len() as int) =~= w);
            assert(bytes[w.len() as int] == 32u8);
            lemma_lex_shift(head, literals_text(rest), 0, start_state(), Seq::empty());
            assert(lex(bytes, w.len() as int, word_state(), w) == seq![c] + lex(
                bytes,
                head.len() as int,
                start_state(),
                Seq::empty(),
            ));
            assert(tokens(bytes) =~= cs);
        }
    }
}

proof fn lemma_scan_word(bytes: Seq<u8>, pos: int, w: Seq<u8>, i: int)
    requires
        0 <= pos,
        pos + w.len() <= bytes.len(),
        bytes.subrange(pos, pos + w.len()) == w,
        forall|j: int| 0 <= j < w.len() ==> is_word_byte(#[trigger] w[j]),
        0 <= i <= w.len(),
    ensures
        lex(bytes, pos, start_state(), Seq::empty()) == lex(
            bytes,
            pos + i,
            if i == 0 {
                start_state()
            } else {
                word_state()
            },
            w.take(i),
        ),
    decreases i,
{
    if i == 0 {
        assert(w.take(0) =~= Seq::<u8>::empty());
    } else {
        lemma_scan_word(bytes, pos, w, i - 1);
        let b = bytes[pos + i - 1];
        assert(b == bytes.subrange(pos, pos + w.len())[i - 1]);
        assert(is_word_byte(w[i - 1]));
        assert(w.take(i - 1).push(b) =~= w.take(i));
        let st = if i - 1 == 0 {
            start_state()
        } else {
            word_state()
        };
        assert(scan_byte(st, b, w.take(i - 1)) == (false, word_state(), w.take(i)));
    }
}

proof fn lemma_lex_shift(a: Seq<u8>, b: Seq<u8>, i: int, st: ScanState, buff: Seq<u8>)
    requires
        0 <= i,
    ensures
        lex(a + b, a.len() + i, st, buff) == lex(b, i, st, buff),
    decreases b.len() - i,
{
    if i < b.len() {
        assert((a + b)[a.len() + i] == b[i]);
        let (stop, st2, buff2) = scan_byte(st, b[i], buff);
        if stop {
            lemma_lex_shift(a, b, i + 1, start_state(), Seq::empty());
        } else {
            lemma_lex_shift(a, b, i + 1, st2, buff2);
        }
    }
}

proof fn lemma_ascii_valid(bytes: Seq<u8>)
    requires
        forall|j: int| 0 <= j < bytes.len() ==> #[trigger] bytes[j] < 128,
    ensures
        valid_utf8(bytes),
    decreases bytes.len(),
{
    if bytes.len() > 0 {
        let b0 = bytes[0];
        assert(b0 & 0x7f == b0) by (bit_vector)
            requires
                b0 < 128,
        ;
        let rest = bytes.subrange(1, bytes.len() as int);
        assert forall|j: int| 0 <= j < rest.len() implies #[trigger] rest[j] < 128 by {
            assert(rest[j] == bytes[j + 1]);
        }
        lemma_ascii_valid(rest);
    }
}

proof fn lemma_digits_of(n: nat)
    ensures
        digits_of(n).len() > 0,
        all_digits(digits_of(n)),
        digits_value(digits_of(n)) == n,
    decreases n,
{
    if n >= 10 {
        lemma_digits_of(n / 10);
        let d = digits_of(n);
        assert(d.drop_last() =~= digits_of(n / 10));
        assert(n == (n / 10) * 10 + n % 10) by (nonlinear_arith);
        assert(0 <= n % 10 < 10) by (nonlinear_arith);
        assert(d.last() == (48 + n % 10) as u8);
        assert(d.last() - 48 == n % 10);
        assert(digits_value(d) == digits_value(d.drop_last()) * 10 + (d.last() - 48));
        assert forall|j: int| 0 <= j < d.len() implies is_digit(#[trigger] d[j]) by {
            if j < d.len() - 1 {
                assert(d[j] == digits_of(n / 10)[j]);
            }
        }
    } else {
        let d = digits_of(n);
        assert(d.drop_last() =~= Seq::<u8>::empty());
        assert(digits_value(d) == digits_value(d.drop_last()) * 10 + (d.last() - 48));
    }
}

proof fn lemma_int_text(v: i64)
    ensures
        int_of(int_text(v)) == Some(v),
        int_text(v).len() > 0,
        forall|j: int| 0 <= j < int_text(v).len() ==> #[trigger] int_text(v)[j] < 128 && is_word_byte(
            int_text(v)[j],
        ),
{
    let s = int_text(v);
    if v < 0 {
        let d = digits_of((-v) as nat);
        lemma_digits_of((-v) as nat);
        assert(s.drop_first() =~= d);
        assert forall|j: int| 0 <= j < s.len() implies #[trigger] s[j] < 128 && is_word_byte(s[j]) by {
            if j > 0 {
                assert(s[j] == d[j - 1]);
                assert(is_digit(d[j - 1]));
            }
        }
    } else {
        lemma_digits_of(v as nat);
        assert(is_digit(s[0]));
        assert forall|j: int| 0 <= j < s.len() implies #[trigger] s[j] < 128 && is_word_byte(s[j]) by {
            assert(is_digit(s[j]));
        }
    }
}

proof fn lemma_find_hit(s: Seq<u8>, a: u8, b: u8)
    ensures
        0 <= find_either(s, a, b) <= s.len(),
        find_either(s, a, b) < s.len() ==> s[find_either(s, a, b)] == a || s[find_either(s, a, b)]
            == b,
        forall|j: int| 0 <= j < find_either(s, a, b) ==> s[j] != a && s[j] != b,
    decreases s.len(),
{
    if s.len() > 0 && !(s[0] == a || s[0] == b) {
        lemma_find_hit(s.drop_first(), a, b);
        assert forall|j: int| 0 <= j < find_either(s, a, b) implies s[j] != a && s[j] != b by {
            if j > 0 {
                assert(s[j] == s.drop_first()[j - 1]);
            }
        }
    }
}

/// Every byte of a mantissa is a digit or a `.`.
proof fn lemma_mantissa_bytes(s: Seq<u8>)
    requires
        is_mantissa(s),
    ensures
        forall|j: int| 0 <= j < s.len() ==> is_digit(#[trigger] s[j]) || s[j] == 46,
{
    let k = find_either(s, 46, 46);
    lemma_find_hit(s, 46, 46);
    assert forall|j: int| 0 <= j < s.len() implies is_digit(#[trigger] s[j]) || s[j] == 46 by {
        if k < s.len() {
            if j < k {
                assert(s.take(k)[j] == s[j]);
            } else if j > k {
                assert(s.skip(k + 1)[j - k - 1] == s[j]);
            }
        }
    }
}

/// The bytes of a float literal can all stand inside an unquoted token.
proof fn lemma_float_bytes(s: Seq<u8>)
    requires
        is_float_syntax(s),
    ensures
        s.len() > 0,
        forall|j: int| 0 <= j < s.len() ==> is_word_byte(#[trigger] s[j]),
{
    let signed = s.len() > 0 && is_sign(s[0]);
    let m = if signed {
        s.drop_first()
    } else {
        s
    };
    let word_m = forall|j: int| 0 <= j < m.len() ==> is_word_byte(#[trigger] m[j]);
    if same_ignoring_case(m, inf_text()) || same_ignoring_case(m, infinity_text())
        || same_ignoring_case(m, nan_text()) {
        assert forall|j: int| 0 <= j < m.len() implies is_word_byte(#[trigger] m[j]) by {
            assert(ascii_lower(m[j]) >= 97);
        }
        assert(m.len() > 0);
    } else {
        assert(is_decimal(m));
        let k = find_either(m, 101, 69);
        lemma_find_hit(m, 101, 69);
        if k == m.len() {
            lemma_mantissa_bytes(m);
            assert(m.len() > 0);
        } else {
            let left = m.take(k);
            let right = m.skip(k + 1);
            lemma_mantissa_bytes(left);
            assert(is_exponent(right));
            assert forall|j: int| 0 <= j < m.len() implies is_word_byte(#[trigger] m[j]) by {
                if j < k {
                    assert(left[j] == m[j]);
                } else if j > k {
                    assert(right[j - k - 1] == m[j]);
                    if j - k - 1 > 0 || !(right.len() > 0 && is_sign(right[0])) {
                        let d = if right.len() > 0 && is_sign(right[0]) {
                            right.drop_first()
                        } else {
                            right
                        };
                        if right.len() > 0 && is_sign(right[0]) {
                            assert(d[j - k - 2] == right[j - k - 1]);
                        }
                    }
                }
            }
        }
    }
    assert forall|j: int| 0 <= j < s.len() implies is_word_byte(#[trigger] s[j]) by {
        if signed && j > 0 {
            assert(m[j - 1] == s[j]);
        }
    }
}

proof fn lemma_literal(c: CellView)
    requires
        is_literal(c),
    ensures
        literal_text(c).len() > 0,
        forall|j: int| 0 <= j < literal_text(c).len() ==> is_word_byte(#[trigger] literal_text(c)[j]),
        bare_token(literal_text(c)) == Some(c),
{
    match c {
        CellView::Integer(v) => {
            lemma_int_text(v);
            lemma_ascii_valid(int_text(v));
        },
        CellView::Boolean(b) => {
            let s = literal_text(c);
            assert(forall|j: int| 0 <= j < s.len() ==> #[trigger] s[j] < 128 && is_word_byte(s[j]));
            lemma_ascii_valid(s);
            assert(!is_digit(s[0]));
            assert(!all_digits(s));
            assert(int_of(s) is None);
            let k = (s.len() - 1) as int;
            lemma_find_either(s, 101, 69, k);
            lemma_find_either(s.take(k), 46, 46, k);
            assert(s.take(k)[0] == s[0]);
            assert(!is_mantissa(s.take(k)));
            assert(!is_float_syntax(s));
            assert(true_text() != false_text()) by {
                assert(true_text().len() != false_text().len());
            }
        },
        CellView::Float(t) => {
            let s = bytes_of(t);
            encode_utf8_valid_utf8(t);
            encode_utf8_decode_utf8(t);
            lemma_float_bytes(s);
        },
        CellView::Word(w) => {
            encode_utf8_valid_utf8(w);
            encode_utf8_decode_utf8(w);
        },
        _ => {},
    }
}

} // verus!
