use vstd::prelude::*;
use vstd::utf8::{decode_utf8, valid_utf8};
use crate::cell::{bytes_of, views, Cell, CellView};
use crate::number::{int_of, is_float_literal, is_float_syntax, parse_int};

verus! {

/// Where the scanner stands within the current token.
#[derive(Clone, Copy, Debug, PartialEq, Eq, Structural)]
pub struct ScanState {
    /// Some byte of the token (or its opening quote) has been seen.
    pub word_found: bool,
    /// Inside a single-quoted string.
    pub in_string: bool,
    /// Inside a double-quoted comment.
    pub in_comment: bool,
    /// The previous byte inside the string was an unpaired backslash.
    pub escape: bool,
}

pub open spec fn start_state() -> ScanState {
    ScanState { word_found: false, in_string: false, in_comment: false, escape: false }
}

pub open spec fn is_separator(b: u8) -> bool {
    b == 44 || b <= 32
}

/// One byte of input: whether the token ends here (the byte is consumed),
/// the new state and the new token bytes.
///
/// In a string, `\\` stands for a backslash and `\'` for a quote; an unescaped
/// quote ends the string. A double quote outside a string opens a comment that
/// the next double quote closes. Outside both, a comma, a space or a control
/// byte ends a token that has begun and is skipped otherwise.
pub open spec fn scan_byte(st: ScanState, b: u8, buff: Seq<u8>) -> (bool, ScanState, Seq<u8>) {
    if st.in_string {
        if b == 92 {
            (false, ScanState { escape: !st.escape, ..st }, if st.escape { buff.push(b) } else { buff })
        } else if b == 39 {
            if st.escape {
                (false, ScanState { escape: false, ..st }, buff.push(b))
            } else {
                (true, st, buff)
            }
        } else {
            (false, ScanState { escape: false, ..st }, buff.push(b))
        }
    } else if st.in_comment {
        (false, ScanState { in_comment: b != 34, ..st }, buff)
    } else if b == 39 {
        (false, ScanState { in_string: true, word_found: true, ..st }, buff)
    } else if b == 34 {
        (false, ScanState { in_comment: true, ..st }, buff)
    } else if is_separator(b) {
        (st.word_found, st, buff)
    } else {
        (false, ScanState { word_found: true, ..st }, buff.push(b))
    }
}

pub open spec fn true_text() -> Seq<u8> {
    seq![116u8, 114, 117, 101]
}

pub open spec fn false_text() -> Seq<u8> {
    seq![102u8, 97, 108, 115, 101]
}

/// The cell an unquoted token stands for: an integer, else a float, else a
/// boolean, else a word. `None` when the bytes are not UTF-8.
pub open spec fn bare_token(b: Seq<u8>) -> Option<CellView> {
    if !valid_utf8(b) {
        None
    } else if int_of(b) is Some {
        Some(CellView::Integer(int_of(b).unwrap()))
    } else if is_float_syntax(b) {
        Some(CellView::Float(decode_utf8(b)))
    } else if b == true_text() {
        Some(CellView::Boolean(true))
    } else if b == false_text() {
        Some(CellView::Boolean(false))
    } else {
        Some(CellView::Word(decode_utf8(b)))
    }
}

/// The cell that the scanned bytes make, if any.
pub open spec fn emit(st: ScanState, buff: Seq<u8>) -> Option<CellView> {
    if st.in_string {
        if valid_utf8(buff) {
            Some(CellView::String(decode_utf8(buff)))
        } else {
            None
        }
    } else if buff.len() > 0 {
        bare_token(buff)
    } else {
        None
    }
}

/// The cells that the input makes from `pos` on, the scanner being in state
/// `st` with `buff` collected. Scanning stops for good at a token that is not
/// UTF-8, or when the input ends.
pub open spec fn lex(bytes: Seq<u8>, pos: int, st: ScanState, buff: Seq<u8>) -> Seq<CellView>
    decreases bytes.len() - pos,
{
    if pos >= bytes.len() || pos < 0 {
        match emit(st, buff) {
            Some(c) => seq![c],
            None => Seq::empty(),
        }
    } else {
        let (stop, st2, buff2) = scan_byte(st, bytes[pos], buff);
        if stop {
            match emit(st2, buff2) {
                Some(c) => seq![c] + lex(bytes, pos + 1, start_state(), Seq::empty()),
                None => Seq::empty(),
            }
        } else {
            lex(bytes, pos + 1, st2, buff2)
        }
    }
}

/// Where scanning from `pos` (in state `st`, with `buff` collected) stops:
/// just past the byte that ended the token (a separator after a word, or the
/// closing quote of a string), or the end of the input.
pub open spec fn scan_end(bytes: Seq<u8>, pos: int, st: ScanState, buff: Seq<u8>) -> int
    decreases bytes.len() - pos,
{
    if pos >= bytes.len() || pos < 0 {
        pos
    } else {
        let (stop, st2, buff2) = scan_byte(st, bytes[pos], buff);
        if stop {
            pos + 1
        } else {
            scan_end(bytes, pos + 1, st2, buff2)
        }
    }
}

/// The cells that a source text makes.
pub open spec fn tokens(bytes: Seq<u8>) -> Seq<CellView> {
    lex(bytes, 0, start_state(), Seq::empty())
}

pub open spec fn opt_view(c: Option<Cell>) -> Option<CellView> {
    match c {
        Some(c) => Some(c@),
        None => None,
    }
}

/// Relies on `String::from_utf8`: it succeeds exactly on valid UTF-8, and the
/// text then holds the characters those bytes encode.
#[verifier::external_body]
fn utf8_text(bytes: Vec<u8>) -> (r: Option<String>)
    ensures
        r is Some == valid_utf8(bytes@),
        r matches Some(s) ==> s@ == decode_utf8(bytes@),
{
    String::from_utf8(bytes).ok()
}

fn bytes_equal(a: &[u8], b: &[u8]) -> (r: bool)
    ensures
        r == (a@ == b@),
{
    if a.len() != b.len() {
        return false;
    }
    let mut i: usize = 0;
    while i < a.len()
        invariant
            a@.len() == b@.len(),
            i <= a@.len(),
            forall|j: int| 0 <= j < i ==> a@[j] == b@[j],
        decreases a@.len() - i,
    {
        if a[i] != b[i] {
            return false;
        }
        i = i + 1;
    }
    assert(a@ =~= b@);
    true
}

/// The cell for an unquoted token, as `bare_token` states it.
pub fn parse_token(token: Vec<u8>) -> (r: Option<Cell>)
    ensures
        opt_view(r) == bare_token(token@),
{
    let number = parse_int(token.as_slice());
    let float = is_float_literal(token.as_slice());
    let t: Vec<u8> = vec![116u8, 114, 117, 101];
    let f: Vec<u8> = vec![102u8, 97, 108, 115, 101];
    assert(t@ =~= true_text());
    assert(f@ =~= false_text());
    let is_true = bytes_equal(token.as_slice(), t.as_slice());
    let is_false = bytes_equal(token.as_slice(), f.as_slice());
    match utf8_text(token) {
        None => None,
        Some(text) => {
            if let Some(v) = number {
                Some(Cell::Integer(v))
            } else if float {
                Some(Cell::Float(text))
            } else if is_true {
                Some(Cell::Boolean(true))
            } else if is_false {
                Some(Cell::Boolean(false))
            } else {
                Some(Cell::Word(text))
            }
        },
    }
}

fn emit_cell(st: ScanState, buff: Vec<u8>) -> (r: Option<Cell>)
    ensures
        opt_view(r) == emit(st, buff@),
{
    if st.in_string {
        match utf8_text(buff) {
            Some(s) => Some(Cell::String(s)),
            None => None,
        }
    } else if buff.len() > 0 {
        parse_token(buff)
    } else {
        None
    }
}

/// Scans the next token from `pos`: the cell it makes and where scanning resumes.
/// `None` when no further cell comes from the input.
pub fn next_cell(code: &[u8], pos: usize) -> (r: (Option<Cell>, usize))
    requires
        pos <= code@.len(),
    ensures
        pos <= r.1 <= code@.len(),
        r.1 == scan_end(code@, pos as int, start_state(), Seq::empty()),
        r.0 is Some ==> r.1 > pos && lex(code@, pos as int, start_state(), Seq::empty()) == seq![
            r.0.unwrap()@,
        ] + lex(code@, r.1 as int, start_state(), Seq::empty()),
        r.0 is None ==> lex(code@, pos as int, start_state(), Seq::empty()) == Seq::<CellView>::empty(),
{
    let mut st = ScanState { word_found: false, in_string: false, in_comment: false, escape: false };
    let mut buff: Vec<u8> = Vec::new();
    let mut p = pos;
    let mut stopped = false;
    let ghost whole = lex(code@, pos as int, start_state(), Seq::empty());
    let ghost end = scan_end(code@, pos as int, start_state(), Seq::empty());
    while p < code.len() && !stopped
        invariant
            pos <= p <= code@.len(),
            p == pos ==> st == start_state() && buff@.len() == 0 && !stopped,
            !stopped ==> whole == lex(code@, p as int, st, buff@),
            !stopped ==> end == scan_end(code@, p as int, st, buff@),
            stopped ==> end == p,
            stopped ==> whole == match emit(st, buff@) {
                Some(c) => seq![c] + lex(code@, p as int, start_state(), Seq::empty()),
                None => Seq::empty(),
            },
        decreases code@.len() - p,
    {
        let b = code[p];
        let mut stop = false;
        if st.in_string {
            if b == 92 {
                if st.escape {
                    buff.push(b);
                }
                st.escape = !st.escape;
            } else if b == 39 {
                if st.escape {
                    st.escape = false;
                    buff.push(b);
                } else {
                    stop = true;
                }
            } else {
                st.escape = false;
                buff.push(b);
            }
        } else if st.in_comment {
            if b == 34 {
                st.in_comment = false;
            }
        } else if b == 39 {
            st.in_string = true;
            st.word_found = true;
        } else if b == 34 {
            st.in_comment = true;
        } else if b == 44 || b <= 32 {
            if st.word_found {
                stop = true;
            }
        } else {
            st.word_found = true;
            buff.push(b);
        }
        p = p + 1;
        stopped = stop;
    }
    if !stopped {
        assert(lex(code@, p as int, start_state(), Seq::empty()) =~= Seq::<CellView>::empty());
    }
    let c = emit_cell(st, buff);
    match c {
        None => (None, p),
        Some(c) => {
            if p == pos {
                assert(false);
            }
            (Some(c), p)
        },
    }
}

/// The cells that a source text makes, in order.
pub fn tokenize(code: &str) -> (r: Vec<Cell>)
    ensures
        views(r@) == tokens(bytes_of(code@)),
{
    let bytes = code.as_bytes();
    let mut out: Vec<Cell> = Vec::new();
    let mut pos: usize = 0;
    loop
        invariant
            bytes@ == bytes_of(code@),
            pos <= bytes@.len(),
            views(out@) + lex(bytes@, pos as int, start_state(), Seq::empty()) == tokens(bytes@),
        decreases bytes@.len() - pos,
    {
        let (c, next) = next_cell(bytes, pos);
        match c {
            Some(c) => {
                let ghost cv = c@;
                let ghost prev = out@;
                let ghost rest = lex(bytes@, next as int, start_state(), Seq::empty());
                out.push(c);
                assert(views(out@) =~= views(prev).push(cv));
                assert(views(prev) + (seq![cv] + rest) =~= views(prev).push(cv) + rest);
                pos = next;
            },
            None => {
                assert(views(out@) + Seq::<CellView>::empty() =~= views(out@));
                return out;
            },
        }
    }
}

} // verus!
