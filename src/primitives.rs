use vstd::prelude::*;
use vstd::string::*;
use crate::cell::{cmp_cells, text_is, views, BlockRef, Cell, CellView};
use crate::dictionary::{DictEntry, Dictionary, WordTable};
use crate::stack::Stack;
use crate::error::{Error, ErrorKind};
use crate::pack::{failed, fails, FloatOp, HostCall, Pack, Step};

verus! {

/// Binary arithmetic operators.
#[derive(Clone, Copy, Debug, PartialEq, Eq, Structural)]
pub enum ArithOp {
    Add,
    Sub,
    Mul,
    Div,
    Rem,
}

/// Comparison operators.
#[derive(Clone, Copy, Debug, PartialEq, Eq, Structural)]
pub enum CmpOp {
    Gt,
    Lt,
    Eq,
    Ne,
    Ge,
    Le,
}

/// Binary logic operators.
#[derive(Clone, Copy, Debug, PartialEq, Eq, Structural)]
pub enum LogicOp {
    And,
    Or,
}

/// The engine's own primitives.
#[derive(Clone, Copy, Debug, PartialEq, Eq, Structural)]
pub enum Prim {
    OpenParen,
    CloseParen,
    Size,
    OpenCurly,
    CloseCurly,
    Lex,
    CloseLex,
    Arith(ArithOp),
    Compare(CmpOp),
    Logic(LogicOp),
    Not,
    Wipe,
    If,
    Either,
    OpenBracket,
    Exe,
    ToInt,
    ToFloat,
    ToString,
    ToWord,
    TypeName,
    Help,
    AtAt,
    AtDef,
    LexValue,
    Skip,
    Template,
    Exists,
    Nop,
    Break,
    Leave,
    Loop,
    Again,
    While,
    Do,
}

} // verus!

verus! {

/// The integer result of `a op b`; `None` when it does not fit in an `i64`
/// or the divisor is zero.
pub open spec fn int_arith(op: ArithOp, a: i64, b: i64) -> Option<i64> {
    match op {
        ArithOp::Add => a.checked_add(b),
        ArithOp::Sub => a.checked_sub(b),
        ArithOp::Mul => a.checked_mul(b),
        ArithOp::Div => a.checked_div(b),
        ArithOp::Rem => a.checked_rem(b),
    }
}

/// Whether a three-way comparison result `c` satisfies the operator.
pub open spec fn cmp_holds(op: CmpOp, c: int) -> bool {
    match op {
        CmpOp::Gt => c > 0,
        CmpOp::Lt => c < 0,
        CmpOp::Eq => c == 0,
        CmpOp::Ne => c != 0,
        CmpOp::Ge => c >= 0,
        CmpOp::Le => c <= 0,
    }
}

/// Effect of an arithmetic operator on `a b` (b on top): integers compute
/// exactly or fail, two floats go to the host, `+` joins two strings.
pub open spec fn arith_post(op: ArithOp, p: Pack, q: Pack, r: Result<Step, Error>) -> bool {
    if p.vis().len() < 2 {
        failed(p, q, r, ErrorKind::StackUnderflow)
    } else {
        match (p.top(1), p.top(0)) {
            (Cell::Integer(a), Cell::Integer(b)) => if (op == ArithOp::Div || op == ArithOp::Rem)
                && b == 0 {
                failed(p, q, r, ErrorKind::DivisionByZero)
            } else {
                match int_arith(op, a, b) {
                    None => failed(p, q, r, ErrorKind::Overflow),
                    Some(v) => r == Ok::<Step, Error>(Step::Ran) && Pack::only_stack(p, q)
                        && Pack::replaced(p, q, 2, CellView::Integer(v)),
                }
            },
            (Cell::Float(_), Cell::Float(_)) => r == Ok::<Step, Error>(
                Step::Host(HostCall::Float(FloatOp::Arith(op))),
            ) && Pack::unchanged(p, q),
            (Cell::String(a), Cell::String(b)) => if op == ArithOp::Add {
                r == Ok::<Step, Error>(Step::Ran) && Pack::only_stack(p, q) && Pack::replaced(
                    p,
                    q,
                    2,
                    CellView::String(a@ + b@),
                )
            } else {
                failed(p, q, r, ErrorKind::TypeMismatch)
            },
            _ => failed(p, q, r, ErrorKind::TypeMismatch),
        }
    }
}

/// Effect of a comparison on `a b` (b on top): the shallow cell order, two
/// floats going to the host.
pub open spec fn compare_post(op: CmpOp, p: Pack, q: Pack, r: Result<Step, Error>) -> bool {
    if p.vis().len() < 2 {
        failed(p, q, r, ErrorKind::StackUnderflow)
    } else if p.top(1) is Float && p.top(0) is Float {
        r == Ok::<Step, Error>(Step::Host(HostCall::Float(FloatOp::Compare(op))))
            && Pack::unchanged(p, q)
    } else {
        r == Ok::<Step, Error>(Step::Ran) && Pack::only_stack(p, q) && Pack::replaced(
            p,
            q,
            2,
            CellView::Boolean(cmp_holds(op, cmp_cells(p.top(1), p.top(0)))),
        )
    }
}

/// Effect of `and` / `or`: logical on two booleans, bitwise on two integers.
pub open spec fn logic_post(op: LogicOp, p: Pack, q: Pack, r: Result<Step, Error>) -> bool {
    if p.vis().len() < 2 {
        failed(p, q, r, ErrorKind::StackUnderflow)
    } else {
        match (p.top(1), p.top(0)) {
            (Cell::Boolean(a), Cell::Boolean(b)) => r == Ok::<Step, Error>(Step::Ran)
                && Pack::only_stack(p, q) && Pack::replaced(
                p,
                q,
                2,
                CellView::Boolean(
                    if op == LogicOp::And {
                        a && b
                    } else {
                        a || b
                    },
                ),
            ),
            (Cell::Integer(a), Cell::Integer(b)) => r == Ok::<Step, Error>(Step::Ran)
                && Pack::only_stack(p, q) && Pack::replaced(
                p,
                q,
                2,
                CellView::Integer(
                    if op == LogicOp::And {
                        a & b
                    } else {
                        a | b
                    },
                ),
            ),
            _ => failed(p, q, r, ErrorKind::TypeMismatch),
        }
    }
}

/// Effect of `not`: logical on a boolean, bitwise on an integer.
pub open spec fn not_post(p: Pack, q: Pack, r: Result<Step, Error>) -> bool {
    if p.vis().len() < 1 {
        failed(p, q, r, ErrorKind::StackUnderflow)
    } else {
        match p.top(0) {
            Cell::Boolean(a) => r == Ok::<Step, Error>(Step::Ran) && Pack::only_stack(p, q)
                && Pack::replaced(p, q, 1, CellView::Boolean(!a)),
            Cell::Integer(a) => r == Ok::<Step, Error>(Step::Ran) && Pack::only_stack(p, q)
                && Pack::replaced(p, q, 1, CellView::Integer(!a)),
            _ => failed(p, q, r, ErrorKind::TypeMismatch),
        }
    }
}

impl Pack {
    pub(crate) fn prim_arith(&mut self, op: ArithOp) -> (r: Result<Step, Error>)
        requires
            old(self).wf(),
        ensures
            final(self).wf(),
            arith_post(op, *old(self), *final(self), r),
    {
        if self.stack.size() < 2 {
            return Err(Error::of(ErrorKind::StackUnderflow, "arithmetic: needs two cells"));
        }
        let b = match self.stack.get(0) {
            Some(c) => c,
            None => { return Err(Error::of(ErrorKind::StackUnderflow, "arithmetic: needs two cells")); },
        };
        let a = match self.stack.get(1) {
            Some(c) => c,
            None => { return Err(Error::of(ErrorKind::StackUnderflow, "arithmetic: needs two cells")); },
        };
        match (a, b) {
            (Cell::Integer(x), Cell::Integer(y)) => {
                let x = *x;
                let y = *y;
                if (op == ArithOp::Div || op == ArithOp::Rem) && y == 0 {
                    return Err(Error::of(ErrorKind::DivisionByZero, "arithmetic: division by zero"));
                }
                let v = match op {
                    ArithOp::Add => x.checked_add(y),
                    ArithOp::Sub => x.checked_sub(y),
                    ArithOp::Mul => x.checked_mul(y),
                    ArithOp::Div => x.checked_div(y),
                    ArithOp::Rem => x.checked_rem(y),
                };
                match v {
                    Some(v) => {
                        self.replace_top(2, Cell::Integer(v));
                        Ok(Step::Ran)
                    },
                    None => Err(Error::of(ErrorKind::Overflow, "arithmetic: integer overflow")),
                }
            },
            (Cell::Float(_), Cell::Float(_)) => Ok(Step::Host(HostCall::Float(FloatOp::Arith(op)))),
            (Cell::String(x), Cell::String(y)) => {
                if op == ArithOp::Add {
                    let s = x.clone().concat(y.as_str());
                    self.replace_top(2, Cell::String(s));
                    Ok(Step::Ran)
                } else {
                    Err(Error::of(ErrorKind::TypeMismatch, "arithmetic: strings only join with +"))
                }
            },
            _ => Err(Error::of(ErrorKind::TypeMismatch, "arithmetic: expects two cells of the same kind")),
        }
    }

    pub(crate) fn prim_compare(&mut self, op: CmpOp) -> (r: Result<Step, Error>)
        requires
            old(self).wf(),
        ensures
            final(self).wf(),
            compare_post(op, *old(self), *final(self), r),
    {
        if self.stack.size() < 2 {
            return Err(Error::of(ErrorKind::StackUnderflow, "compare: needs two cells"));
        }
        let b = match self.stack.get(0) {
            Some(c) => c,
            None => { return Err(Error::of(ErrorKind::StackUnderflow, "compare: needs two cells")); },
        };
        let a = match self.stack.get(1) {
            Some(c) => c,
            None => { return Err(Error::of(ErrorKind::StackUnderflow, "compare: needs two cells")); },
        };
        if let (Cell::Float(_), Cell::Float(_)) = (a, b) {
            return Ok(Step::Host(HostCall::Float(FloatOp::Compare(op))));
        }
        let c = a.compare(b);
        let holds = match op {
            CmpOp::Gt => c > 0,
            CmpOp::Lt => c < 0,
            CmpOp::Eq => c == 0,
            CmpOp::Ne => c != 0,
            CmpOp::Ge => c >= 0,
            CmpOp::Le => c <= 0,
        };
        self.replace_top(2, Cell::Boolean(holds));
        Ok(Step::Ran)
    }

    pub(crate) fn prim_logic(&mut self, op: LogicOp) -> (r: Result<Step, Error>)
        requires
            old(self).wf(),
        ensures
            final(self).wf(),
            logic_post(op, *old(self), *final(self), r),
    {
        if self.stack.size() < 2 {
            return Err(Error::of(ErrorKind::StackUnderflow, "logic: needs two cells"));
        }
        let b = match self.stack.get(0) {
            Some(c) => c,
            None => { return Err(Error::of(ErrorKind::StackUnderflow, "logic: needs two cells")); },
        };
        let a = match self.stack.get(1) {
            Some(c) => c,
            None => { return Err(Error::of(ErrorKind::StackUnderflow, "logic: needs two cells")); },
        };
        let c = match (a, b) {
            (Cell::Boolean(x), Cell::Boolean(y)) => Cell::Boolean(
                if op == LogicOp::And {
                    *x && *y
                } else {
                    *x || *y
                },
            ),
            (Cell::Integer(x), Cell::Integer(y)) => Cell::Integer(
                if op == LogicOp::And {
                    *x & *y
                } else {
                    *x | *y
                },
            ),
            _ => { return Err(Error::of(ErrorKind::TypeMismatch, "logic: expects two booleans or two integers")); },
        };
        self.replace_top(2, c);
        Ok(Step::Ran)
    }

    pub(crate) fn prim_not(&mut self) -> (r: Result<Step, Error>)
        requires
            old(self).wf(),
        ensures
            final(self).wf(),
            not_post(*old(self), *final(self), r),
    {
        let c = match self.stack.get(0) {
            Some(Cell::Boolean(x)) => Cell::Boolean(!*x),
            Some(Cell::Integer(x)) => Cell::Integer(!*x),
            Some(_) => { return Err(Error::of(ErrorKind::TypeMismatch, "not: expects a boolean or an integer")); },
            None => { return Err(Error::of(ErrorKind::StackUnderflow, "not: needs a cell")); },
        };
        self.replace_top(1, c);
        Ok(Step::Ran)
    }
}


/// Whether a cell is the word `w`.
pub open spec fn is_word(c: Cell, w: Seq<char>) -> bool {
    c matches Cell::Word(x) && x@ == w
}

/// Scanning the tape from `i` with `level` blocks open: the position just
/// past the `}` that closes the outermost one, if the tape has it.
pub open spec fn block_end(tape: Seq<Cell>, i: int, level: int) -> Option<int>
    decreases tape.len() - i,
{
    if i < 0 || i >= tape.len() {
        None
    } else if is_word(tape[i], "}"@) {
        if level <= 1 {
            Some(i + 1)
        } else {
            block_end(tape, i + 1, level - 1)
        }
    } else if is_word(tape[i], "{"@) {
        block_end(tape, i + 1, level + 1)
    } else {
        block_end(tape, i + 1, level)
    }
}

/// The name that `type` reports for a cell.
pub open spec fn kind_name(c: Cell) -> Seq<char> {
    match c {
        Cell::Empty => "empty"@,
        Cell::Integer(_) => "integer"@,
        Cell::Float(_) => "float"@,
        Cell::Boolean(_) => "boolean"@,
        Cell::String(_) => "string"@,
        Cell::Word(_) => "word"@,
        Cell::Block(_) => "block"@,
        Cell::Struct(_) => "struct"@,
    }
}

/// The entry `@def` gives a word for a value: a block defines code, any other cell a constant.
pub open spec fn entry_for(c: Cell) -> DictEntry {
    match c {
        Cell::Block(b) => DictEntry::Defined(b),
        _ => DictEntry::Data(c),
    }
}

pub open spec fn ran(r: Result<Step, Error>) -> bool {
    r == Ok::<Step, Error>(Step::Ran)
}

/// `(`: opens a nested scope.
pub open spec fn open_paren_post(p: Pack, q: Pack, r: Result<Step, Error>) -> bool {
    &&& ran(r)
    &&& Pack::only_stack(p, q)
    &&& q.stack.cells() == p.stack.cells()
    &&& q.stack.bases() == p.stack.bases().push(p.stack.base() as usize)
    &&& q.stack.base() == p.stack.cells().len()
}

/// `)`: closes the current scope.
pub open spec fn close_paren_post(p: Pack, q: Pack, r: Result<Step, Error>) -> bool {
    if p.stack.bases().len() == 0 {
        failed(p, q, r, ErrorKind::StackUnderflow)
    } else {
        &&& ran(r)
        &&& Pack::only_stack(p, q)
        &&& q.stack.cells() == p.stack.cells()
        &&& q.stack.base() == p.stack.bases().last()
        &&& q.stack.bases() == p.stack.bases().drop_last()
    }
}

/// `size`: pushes the number of cells in the current scope.
pub open spec fn size_post(p: Pack, q: Pack, r: Result<Step, Error>) -> bool {
    if p.vis().len() <= i64::MAX {
        ran(r) && Pack::only_stack(p, q) && Pack::pushed(p, q, Cell::Integer(p.vis().len() as i64))
    } else {
        failed(p, q, r, ErrorKind::Overflow)
    }
}

/// `wipe`: empties the current scope.
pub open spec fn wipe_post(p: Pack, q: Pack, r: Result<Step, Error>) -> bool {
    ran(r) && Pack::only_stack(p, q) && Pack::dropped(p, q, p.vis().len() as int)
}

/// `_`: does nothing.
pub open spec fn nop_post(p: Pack, q: Pack, r: Result<Step, Error>) -> bool {
    ran(r) && Pack::unchanged(p, q)
}

/// `{`: captures the block that starts at the cursor and moves past it.
pub open spec fn open_curly_post(p: Pack, q: Pack, r: Result<Step, Error>) -> bool {
    match block_end(p.tape(), p.ptr(), 1) {
        Some(e) => {
            &&& ran(r)
            &&& Pack::same_dict(p, q)
            &&& q.tape() == p.tape()
            &&& q.rets() == p.rets()
            &&& q.ptr() == e
            &&& Pack::pushed(
                p,
                q,
                Cell::Block(BlockRef { pos: p.ptr() as usize, len: (e - p.ptr()) as usize }),
            )
        },
        None => failed(p, q, r, ErrorKind::UnterminatedBlock),
    }
}

/// `}`: resumes at the most recently saved address.
pub open spec fn close_curly_post(p: Pack, q: Pack, r: Result<Step, Error>) -> bool {
    if p.rets().len() == 0 {
        failed(p, q, r, ErrorKind::ReturnUnderflow)
    } else {
        &&& ran(r)
        &&& Pack::only_control(p, q)
        &&& q.ptr() == p.rets().last()
        &&& q.rets() == p.rets().drop_last()
    }
}

/// `@@`: pushes the cell at the caller's resume address and moves that address past it.
pub open spec fn atat_post(p: Pack, q: Pack, r: Result<Step, Error>) -> bool {
    if p.rets().len() == 0 {
        failed(p, q, r, ErrorKind::ReturnUnderflow)
    } else if p.rets().last() >= p.tape().len() {
        failed(p, q, r, ErrorKind::BadAddress)
    } else {
        &&& ran(r)
        &&& Pack::same_dict(p, q)
        &&& q.tape() == p.tape()
        &&& q.ptr() == p.ptr()
        &&& q.rets() == p.rets().drop_last().push((p.rets().last() + 1) as usize)
        &&& Pack::pushed(p, q, p.tape()[p.rets().last() as int])
    }
}

/// `@def`: `value word @def` binds the word (under the current prefix).
pub open spec fn atdef_post(p: Pack, q: Pack, r: Result<Step, Error>) -> bool {
    if p.vis().len() == 0 {
        failed(p, q, r, ErrorKind::StackUnderflow)
    } else if !(p.top(0) is Word) {
        failed(p, q, r, ErrorKind::TypeMismatch)
    } else if p.vis().len() < 2 {
        failed(p, q, r, ErrorKind::StackUnderflow)
    } else {
        &&& ran(r)
        &&& q.tape() == p.tape()
        &&& q.ptr() == p.ptr()
        &&& q.rets() == p.rets()
        &&& Pack::dropped(p, q, 2)
        &&& Dictionary::defined(
            &p.dictionary,
            &q.dictionary,
            p.top(0)->Word_0@,
            entry_for(p.top(1)),
        )
    }
}

/// `lex#`: pushes the current prefix as a string.
pub open spec fn lex_value_post(p: Pack, q: Pack, r: Result<Step, Error>) -> bool {
    ran(r) && Pack::only_stack(p, q) && Pack::replaced(p, q, 0, CellView::String(p.lex()))
}

/// `skip`: moves the cursor by the integer on top.
pub open spec fn skip_post(p: Pack, q: Pack, r: Result<Step, Error>) -> bool {
    if p.vis().len() == 0 {
        failed(p, q, r, ErrorKind::StackUnderflow)
    } else if !(p.top(0) is Integer) {
        failed(p, q, r, ErrorKind::TypeMismatch)
    } else {
        let t = p.ptr() + p.top(0)->Integer_0;
        if t < 0 || t > usize::MAX {
            failed(p, q, r, ErrorKind::BadAddress)
        } else {
            &&& ran(r)
            &&& Pack::same_dict(p, q)
            &&& q.tape() == p.tape()
            &&& q.rets() == p.rets()
            &&& q.ptr() == t
            &&& Pack::dropped(p, q, 1)
        }
    }
}

/// `exist?`: keeps the word on top and pushes whether it is defined.
pub open spec fn exists_post(p: Pack, q: Pack, r: Result<Step, Error>) -> bool {
    if p.vis().len() == 0 {
        failed(p, q, r, ErrorKind::StackUnderflow)
    } else {
        match p.top(0) {
            Cell::Word(w) => ran(r) && Pack::only_stack(p, q) && Pack::pushed(
                p,
                q,
                Cell::Boolean(p.words().contains_key(w@)),
            ),
            _ => failed(p, q, r, ErrorKind::TypeMismatch),
        }
    }
}

/// `type`: keeps the top cell and pushes the name of its kind.
pub open spec fn type_post(p: Pack, q: Pack, r: Result<Step, Error>) -> bool {
    if p.vis().len() == 0 {
        failed(p, q, r, ErrorKind::StackUnderflow)
    } else {
        ran(r) && Pack::only_stack(p, q) && Pack::replaced(p, q, 0, CellView::String(kind_name(p.top(0))))
    }
}

/// `string` (word to string) and `word` (string to word).
pub open spec fn convert_post(to_text: bool, p: Pack, q: Pack, r: Result<Step, Error>) -> bool {
    if p.vis().len() == 0 {
        failed(p, q, r, ErrorKind::StackUnderflow)
    } else {
        match (to_text, p.top(0)) {
            (true, Cell::Word(w)) => ran(r) && Pack::only_stack(p, q) && Pack::replaced(p, q, 1, CellView::String(w@)),
            (false, Cell::String(s)) => ran(r) && Pack::only_stack(p, q) && Pack::replaced(p, q, 1, CellView::Word(s@)),
            _ => failed(p, q, r, ErrorKind::TypeMismatch),
        }
    }
}

/// `int` (float to integer) and `float` (integer to float): work for the host.
pub open spec fn number_convert_post(to_int: bool, p: Pack, q: Pack, r: Result<Step, Error>) -> bool {
    if p.vis().len() == 0 {
        failed(p, q, r, ErrorKind::StackUnderflow)
    } else if (to_int && p.top(0) is Float) || (!to_int && p.top(0) is Integer) {
        r == Ok::<Step, Error>(Step::Host(HostCall::Float(if to_int { FloatOp::ToInt } else { FloatOp::FromInt })))
            && Pack::unchanged(p, q)
    } else {
        failed(p, q, r, ErrorKind::TypeMismatch)
    }
}

/// `break`: drops one saved address and resumes at the next one.
pub open spec fn break_post(p: Pack, q: Pack, r: Result<Step, Error>) -> bool {
    let n = p.rets().len();
    if n < 2 {
        failed(p, q, r, ErrorKind::ReturnUnderflow)
    } else {
        &&& ran(r)
        &&& Pack::only_control(p, q)
        &&& q.ptr() == p.rets()[n - 2]
        &&& q.rets() == p.rets().take(n - 2)
    }
}

/// The number of frames that `leave` drops before resuming: `level + 1`, or none.
pub open spec fn leave_frames(level: i64) -> int {
    if level + 1 > 0 {
        level + 1
    } else {
        0
    }
}

/// `leave`: with `level` on top, drops `level + 1` saved addresses and resumes at the next one.
pub open spec fn leave_post(p: Pack, q: Pack, r: Result<Step, Error>) -> bool {
    if p.vis().len() == 0 {
        failed(p, q, r, ErrorKind::StackUnderflow)
    } else if !(p.top(0) is Integer) {
        failed(p, q, r, ErrorKind::TypeMismatch)
    } else {
        let k = leave_frames(p.top(0)->Integer_0);
        let n = p.rets().len();
        if n <= k {
            failed(p, q, r, ErrorKind::ReturnUnderflow)
        } else {
            &&& ran(r)
            &&& Pack::same_dict(p, q)
            &&& q.tape() == p.tape()
            &&& Pack::dropped(p, q, 1)
            &&& q.ptr() == p.rets()[n - k - 1]
            &&& q.rets() == p.rets().take(n - k - 1)
        }
    }
}

/// `loop`: saves the address of the `loop` word itself as the jump-back target.
pub open spec fn loop_post(p: Pack, q: Pack, r: Result<Step, Error>) -> bool {
    if p.ptr() == 0 {
        failed(p, q, r, ErrorKind::BadAddress)
    } else {
        &&& ran(r)
        &&& Pack::only_control(p, q)
        &&& q.ptr() == p.ptr()
        &&& q.rets() == p.rets().push((p.ptr() - 1) as usize)
    }
}

/// `again`: takes a boolean and the saved target; jumps back when it is true.
pub open spec fn again_post(p: Pack, q: Pack, r: Result<Step, Error>) -> bool {
    if p.vis().len() == 0 {
        failed(p, q, r, ErrorKind::StackUnderflow)
    } else if !(p.top(0) is Boolean) {
        failed(p, q, r, ErrorKind::TypeMismatch)
    } else if p.rets().len() == 0 {
        failed(p, q, r, ErrorKind::ReturnUnderflow)
    } else {
        &&& ran(r)
        &&& Pack::same_dict(p, q)
        &&& q.tape() == p.tape()
        &&& Pack::dropped(p, q, 1)
        &&& q.rets() == p.rets().drop_last()
        &&& q.ptr() == if p.top(0)->Boolean_0 {
            p.rets().last() as int
        } else {
            p.ptr()
        }
    }
}


impl Pack {
    pub(crate) fn prim_open_paren(&mut self) -> (r: Result<Step, Error>)
        requires
            old(self).wf(),
        ensures
            final(self).wf(),
            open_paren_post(*old(self), *final(self), r),
    {
        self.stack.start_stack();
        Ok(Step::Ran)
    }

    pub(crate) fn prim_close_paren(&mut self) -> (r: Result<Step, Error>)
        requires
            old(self).wf(),
        ensures
            final(self).wf(),
            close_paren_post(*old(self), *final(self), r),
    {
        match self.stack.end_stack() {
            Some(_) => Ok(Step::Ran),
            None => Err(Error::of(ErrorKind::StackUnderflow, "close paren: no nested stack is open")),
        }
    }

    pub(crate) fn prim_size(&mut self) -> (r: Result<Step, Error>)
        requires
            old(self).wf(),
        ensures
            final(self).wf(),
            size_post(*old(self), *final(self), r),
    {
        let n = self.stack.size();
        if n as u128 > 9223372036854775807u128 {
            return Err(Error::of(ErrorKind::Overflow, "size: too many cells"));
        }
        self.stack.push(Cell::Integer(n as i64));
        Ok(Step::Ran)
    }

    pub(crate) fn prim_wipe(&mut self) -> (r: Result<Step, Error>)
        requires
            old(self).wf(),
        ensures
            final(self).wf(),
            wipe_post(*old(self), *final(self), r),
    {
        self.stack.clear();
        Ok(Step::Ran)
    }

    pub(crate) fn prim_open_curly(&mut self) -> (r: Result<Step, Error>)
        requires
            old(self).wf(),
        ensures
            final(self).wf(),
            open_curly_post(*old(self), *final(self), r),
    {
        let pos = self.concat.pointer;
        let mut level: u128 = 1;
        loop
            invariant
                self.wf(),
                Pack::same_dict(*old(self), *self),
                Pack::same_stack(*old(self), *self),
                self.tape() == old(self).tape(),
                self.rets() == old(self).rets(),
                pos == old(self).ptr(),
                pos <= self.ptr(),
                1 <= level <= self.ptr() - pos + 1,
                block_end(old(self).tape(), pos as int, 1) == block_end(
                    self.tape(),
                    self.ptr(),
                    level as int,
                ),
            decreases self.tape().len() - self.ptr(),
        {
            match self.concat.next() {
                None => {
                    self.concat.pointer = pos;
                    return Err(Error::of(ErrorKind::UnterminatedBlock, "{: no matching } before the end"));
                },
                Some(c) => {
                    if let Cell::Word(w) = c {
                        if text_is(w.as_str(), "}") {
                            if level == 1 {
                                let len = self.concat.pointer - pos;
                                self.stack.push(Cell::Block(BlockRef { pos, len }));
                                return Ok(Step::Ran);
                            }
                            level = level - 1;
                        } else if text_is(w.as_str(), "{") {
                            level = level + 1;
                        }
                    }
                },
            }
        }
    }

    pub(crate) fn prim_close_curly(&mut self) -> (r: Result<Step, Error>)
        requires
            old(self).wf(),
        ensures
            final(self).wf(),
            close_curly_post(*old(self), *final(self), r),
    {
        match self.ret.pop() {
            Some(pos) => {
                self.concat.pointer = pos;
                Ok(Step::Ran)
            },
            None => Err(Error::of(ErrorKind::ReturnUnderflow, "}: return stack is empty")),
        }
    }

    pub(crate) fn prim_atat(&mut self) -> (r: Result<Step, Error>)
        requires
            old(self).wf(),
        ensures
            final(self).wf(),
            atat_post(*old(self), *final(self), r),
    {
        match self.ret.pop() {
            Some(at) => {
                if at < self.concat.array.len() {
                    let c = self.concat.array[at].clone();
                    self.ret.push(at + 1);
                    self.stack.push(c);
                    Ok(Step::Ran)
                } else {
                    self.ret.push(at);
                    assert(self.rets() =~= old(self).rets());
                    Err(Error::of(ErrorKind::BadAddress, "@@: the caller's address is past the tape"))
                }
            },
            None => Err(Error::of(ErrorKind::ReturnUnderflow, "@@: return stack is empty")),
        }
    }

    pub(crate) fn prim_atdef(&mut self) -> (r: Result<Step, Error>)
        requires
            old(self).wf(),
        ensures
            final(self).wf(),
            atdef_post(*old(self), *final(self), r),
    {
        let word = match self.stack.get(0) {
            Some(Cell::Word(w)) => w.clone(),
            Some(_) => { return Err(Error::of(ErrorKind::TypeMismatch, "@def: expects a word on top")); },
            None => { return Err(Error::of(ErrorKind::StackUnderflow, "@def: needs a word and a value")); },
        };
        let value = match self.stack.get(1) {
            Some(c) => c.clone(),
            None => { return Err(Error::of(ErrorKind::StackUnderflow, "@def: needs a word and a value")); },
        };
        self.drop_top(2);
        match value {
            Cell::Block(b) => self.dictionary.block(word.as_str(), b),
            _ => self.dictionary.data(word.as_str(), value),
        }
        Ok(Step::Ran)
    }

    pub(crate) fn prim_lex_value(&mut self) -> (r: Result<Step, Error>)
        requires
            old(self).wf(),
        ensures
            final(self).wf(),
            lex_value_post(*old(self), *final(self), r),
    {
        let s = self.dictionary.lex.clone();
        self.replace_top(0, Cell::String(s));
        Ok(Step::Ran)
    }

    pub(crate) fn prim_skip(&mut self) -> (r: Result<Step, Error>)
        requires
            old(self).wf(),
        ensures
            final(self).wf(),
            skip_post(*old(self), *final(self), r),
    {
        let off = match self.stack.get(0) {
            Some(Cell::Integer(i)) => *i,
            Some(_) => { return Err(Error::of(ErrorKind::TypeMismatch, "skip: expects an integer")); },
            None => { return Err(Error::of(ErrorKind::StackUnderflow, "skip: needs an integer")); },
        };
        let t = self.concat.pointer as i128 + off as i128;
        if t < 0 || t > usize::MAX as i128 {
            return Err(Error::of(ErrorKind::BadAddress, "skip: target is outside the tape's range"));
        }
        self.drop_top(1);
        self.concat.pointer = t as usize;
        Ok(Step::Ran)
    }

    pub(crate) fn prim_exists(&mut self) -> (r: Result<Step, Error>)
        requires
            old(self).wf(),
        ensures
            final(self).wf(),
            exists_post(*old(self), *final(self), r),
    {
        let found = match self.stack.get(0) {
            Some(Cell::Word(w)) => self.dictionary.is_defined(w.as_str()),
            Some(_) => { return Err(Error::of(ErrorKind::TypeMismatch, "exist?: expects a word")); },
            None => { return Err(Error::of(ErrorKind::StackUnderflow, "exist?: needs a word")); },
        };
        self.stack.push(Cell::Boolean(found));
        Ok(Step::Ran)
    }

    pub(crate) fn prim_type(&mut self) -> (r: Result<Step, Error>)
        requires
            old(self).wf(),
        ensures
            final(self).wf(),
            type_post(*old(self), *final(self), r),
    {
        let name = match self.stack.get(0) {
            Some(Cell::Empty) => "empty",
            Some(Cell::Integer(_)) => "integer",
            Some(Cell::Float(_)) => "float",
            Some(Cell::Boolean(_)) => "boolean",
            Some(Cell::String(_)) => "string",
            Some(Cell::Word(_)) => "word",
            Some(Cell::Block(_)) => "block",
            Some(Cell::Struct(_)) => "struct",
            None => { return Err(Error::of(ErrorKind::StackUnderflow, "type: stack is empty")); },
        };
        self.replace_top(0, Cell::String(name.to_string()));
        Ok(Step::Ran)
    }

    pub(crate) fn prim_convert(&mut self, to_text: bool) -> (r: Result<Step, Error>)
        requires
            old(self).wf(),
        ensures
            final(self).wf(),
            convert_post(to_text, *old(self), *final(self), r),
    {
        let c = match self.stack.get(0) {
            Some(Cell::Word(w)) => {
                if !to_text {
                    return Err(Error::of(ErrorKind::TypeMismatch, "word: expects a string"));
                }
                Cell::String(w.clone())
            },
            Some(Cell::String(s)) => {
                if to_text {
                    return Err(Error::of(ErrorKind::TypeMismatch, "string: expects a word"));
                }
                Cell::Word(s.clone())
            },
            Some(_) => { return Err(Error::of(ErrorKind::TypeMismatch, "string/word: wrong kind of cell")); },
            None => { return Err(Error::of(ErrorKind::StackUnderflow, "string/word: stack is empty")); },
        };
        self.replace_top(1, c);
        Ok(Step::Ran)
    }

    pub(crate) fn prim_number_convert(&mut self, to_int: bool) -> (r: Result<Step, Error>)
        requires
            old(self).wf(),
        ensures
            final(self).wf(),
            number_convert_post(to_int, *old(self), *final(self), r),
    {
        let fits = match self.stack.get(0) {
            Some(Cell::Float(_)) => to_int,
            Some(Cell::Integer(_)) => !to_int,
            Some(_) => false,
            None => { return Err(Error::of(ErrorKind::StackUnderflow, "int/float: stack is empty")); },
        };
        if !fits {
            return Err(Error::of(ErrorKind::TypeMismatch, "int/float: wrong kind of number"));
        }
        if to_int {
            Ok(Step::Host(HostCall::Float(FloatOp::ToInt)))
        } else {
            Ok(Step::Host(HostCall::Float(FloatOp::FromInt)))
        }
    }

    pub(crate) fn prim_break(&mut self) -> (r: Result<Step, Error>)
        requires
            old(self).wf(),
        ensures
            final(self).wf(),
            break_post(*old(self), *final(self), r),
    {
        if self.ret.size() < 2 {
            return Err(Error::of(ErrorKind::ReturnUnderflow, "break: return stack underflow"));
        }
        let _ = self.ret.pop();
        match self.ret.pop() {
            Some(pos) => {
                self.concat.pointer = pos;
                assert(self.rets() =~= old(self).rets().take(old(self).rets().len() - 2));
                Ok(Step::Ran)
            },
            None => Err(Error::of(ErrorKind::ReturnUnderflow, "break: return stack underflow")),
        }
    }

    pub(crate) fn prim_leave(&mut self) -> (r: Result<Step, Error>)
        requires
            old(self).wf(),
        ensures
            final(self).wf(),
            leave_post(*old(self), *final(self), r),
    {
        let level = match self.stack.get(0) {
            Some(Cell::Integer(i)) => *i,
            Some(_) => { return Err(Error::of(ErrorKind::TypeMismatch, "leave: expects an integer")); },
            None => { return Err(Error::of(ErrorKind::StackUnderflow, "leave: needs an integer")); },
        };
        let k: u128 = if level >= 0 {
            level as u128 + 1
        } else {
            0
        };
        if (self.ret.size() as u128) <= k {
            return Err(Error::of(ErrorKind::ReturnUnderflow, "leave: return stack underflow"));
        }
        self.drop_top(1);
        self.ret.discard(k as usize);
        match self.ret.pop() {
            Some(pos) => {
                self.concat.pointer = pos;
                assert(self.rets() =~= old(self).rets().take(old(self).rets().len() - k - 1));
                Ok(Step::Ran)
            },
            None => Err(Error::of(ErrorKind::ReturnUnderflow, "leave: return stack underflow")),
        }
    }

    pub(crate) fn prim_loop(&mut self) -> (r: Result<Step, Error>)
        requires
            old(self).wf(),
        ensures
            final(self).wf(),
            loop_post(*old(self), *final(self), r),
    {
        if self.concat.pointer == 0 {
            return Err(Error::of(ErrorKind::BadAddress, "loop: no word before the cursor"));
        }
        self.ret.push(self.concat.pointer - 1);
        Ok(Step::Ran)
    }

    pub(crate) fn prim_again(&mut self) -> (r: Result<Step, Error>)
        requires
            old(self).wf(),
        ensures
            final(self).wf(),
            again_post(*old(self), *final(self), r),
    {
        let cond = match self.stack.get(0) {
            Some(Cell::Boolean(b)) => *b,
            Some(_) => { return Err(Error::of(ErrorKind::TypeMismatch, "again: expects a boolean")); },
            None => { return Err(Error::of(ErrorKind::StackUnderflow, "again: needs a boolean")); },
        };
        match self.ret.pop() {
            Some(target) => {
                self.drop_top(1);
                if cond {
                    self.concat.pointer = target;
                }
                Ok(Step::Ran)
            },
            None => Err(Error::of(ErrorKind::ReturnUnderflow, "again: no loop address saved")),
        }
    }
}


/// `lex name`: appends `name.` to the prefix of new definitions.
pub open spec fn lex_post(p: Pack, q: Pack, r: Result<Step, Error>) -> bool {
    if p.ptr() < p.tape().len() && p.tape()[p.ptr()] is Word {
        &&& ran(r)
        &&& Pack::same_stack(p, q)
        &&& q.tape() == p.tape()
        &&& q.rets() == p.rets()
        &&& q.ptr() == p.ptr() + 1
        &&& q.words() == p.words()
        &&& q.lex() == p.lex() + p.tape()[p.ptr()]->Word_0@ + "."@
    } else {
        failed(p, q, r, ErrorKind::MissingArgument)
    }
}

/// Index of the last `.` before position `n`, or -1.
pub open spec fn last_dot(l: Seq<char>, n: int) -> int
    decreases n,
{
    if n <= 0 {
        -1
    } else if l[n - 1] == '.' {
        n - 1
    } else {
        last_dot(l, n - 1)
    }
}

/// The prefix with its last `name.` segment removed.
pub open spec fn lex_parent(l: Seq<char>) -> Seq<char> {
    let d1 = last_dot(l, l.len() as int);
    let d2 = if d1 < 0 {
        -1
    } else {
        last_dot(l, d1)
    };
    if d2 < 0 {
        Seq::empty()
    } else {
        l.take(d2 + 1)
    }
}

/// `\lex`: closes the innermost prefix segment.
pub open spec fn close_lex_post(p: Pack, q: Pack, r: Result<Step, Error>) -> bool {
    &&& ran(r)
    &&& Pack::same_stack(p, q)
    &&& q.tape() == p.tape()
    &&& q.rets() == p.rets()
    &&& q.ptr() == p.ptr()
    &&& q.words() == p.words()
    &&& q.lex() == lex_parent(p.lex())
}

/// `? word 'effect' 'description'`: consumes its three tape arguments; when
/// the word `?__` is defined, it records them as constants `?_word_stack_`
/// and `?_word_desc_`.
pub open spec fn help_post(p: Pack, q: Pack, r: Result<Step, Error>) -> bool {
    let i = p.ptr();
    if i + 3 > p.tape().len() {
        failed(p, q, r, ErrorKind::MissingArgument)
    } else {
        match (p.tape()[i], p.tape()[i + 1], p.tape()[i + 2]) {
            (Cell::Word(w), Cell::String(s), Cell::String(d)) => {
                &&& ran(r)
                &&& Pack::same_stack(p, q)
                &&& q.tape() == p.tape()
                &&& q.rets() == p.rets()
                &&& q.ptr() == i + 3
                &&& q.lex() == p.lex()
                &&& q.words() == if p.words().contains_key("?__"@) {
                    p.words().insert(
                        p.lex() + "?_"@ + w@ + "_stack_"@,
                        DictEntry::Data(Cell::String(s)),
                    ).insert(p.lex() + "?_"@ + w@ + "_desc_"@, DictEntry::Data(Cell::String(d)))
                } else {
                    p.words()
                }
            },
            _ => failed(p, q, r, ErrorKind::MissingArgument),
        }
    }
}

impl Pack {
    pub(crate) fn prim_lex(&mut self) -> (r: Result<Step, Error>)
        requires
            old(self).wf(),
        ensures
            final(self).wf(),
            lex_post(*old(self), *final(self), r),
    {
        let i = self.concat.pointer;
        if i >= self.concat.array.len() {
            return Err(Error::of(ErrorKind::MissingArgument, "lex: expects a word after it"));
        }
        let name = match &self.concat.array[i] {
            Cell::Word(w) => w.clone(),
            _ => { return Err(Error::of(ErrorKind::MissingArgument, "lex: expects a word after it")); },
        };
        self.concat.pointer = i + 1;
        let l = self.dictionary.lex.clone().concat(name.as_str()).concat(".");
        self.dictionary.lex = l;
        Ok(Step::Ran)
    }

    pub(crate) fn prim_close_lex(&mut self) -> (r: Result<Step, Error>)
        requires
            old(self).wf(),
        ensures
            final(self).wf(),
            close_lex_post(*old(self), *final(self), r),
    {
        let ghost l = self.lex();
        let n = self.dictionary.lex.as_str().unicode_len();
        let mut found: usize = 0;
        let mut cut: usize = 0;
        let mut i: usize = n;
        while i > 0 && found < 2
            invariant
                n == l.len(),
                i <= n,
                self.lex() == l,
                self.dictionary == old(self).dictionary,
                found <= 2,
                found == 0 ==> last_dot(l, n as int) == last_dot(l, i as int),
                found == 1 ==> last_dot(l, n as int) == cut && last_dot(l, cut as int) == last_dot(l, i as int),
                found == 2 ==> last_dot(l, n as int) >= 0 && last_dot(l, last_dot(l, n as int)) == cut,
                found >= 1 ==> cut < n,
            decreases i,
        {
            if self.dictionary.lex.as_str().get_char(i - 1) == '.' {
                found = found + 1;
                cut = i - 1;
            }
            i = i - 1;
        }
        if found < 2 {
            self.dictionary.lex = String::new();
            assert(self.lex() =~= lex_parent(l));
        } else {
            let kept = self.dictionary.lex.as_str().substring_char(0, cut + 1).to_string();
            self.dictionary.lex = kept;
            assert(self.lex() =~= lex_parent(l));
        }
        Ok(Step::Ran)
    }

    pub(crate) fn prim_help(&mut self) -> (r: Result<Step, Error>)
        requires
            old(self).wf(),
        ensures
            final(self).wf(),
            help_post(*old(self), *final(self), r),
    {
        let i = self.concat.pointer;
        let n = self.concat.array.len();
        if i > n || n - i < 3 {
            return Err(Error::of(ErrorKind::MissingArgument, "?: expects a word and two strings"));
        }
        let (w, s, d) = match (&self.concat.array[i], &self.concat.array[i + 1], &self.concat.array[i + 2]) {
            (Cell::Word(w), Cell::String(s), Cell::String(d)) => (w.clone(), s.clone(), d.clone()),
            _ => { return Err(Error::of(ErrorKind::MissingArgument, "?: expects a word and two strings")); },
        };
        self.concat.pointer = i + 3;
        if self.dictionary.is_defined("?__") {
            let stack_word = String::from_str("?_").concat(w.as_str()).concat("_stack_");
            let desc_word = String::from_str("?_").concat(w.as_str()).concat("_desc_");
            self.dictionary.data(stack_word.as_str(), Cell::String(s));
            self.dictionary.data(desc_word.as_str(), Cell::String(d));
            let ghost l = old(self).lex();
            assert(l + stack_word@ =~= l + "?_"@ + w@ + "_stack_"@);
            assert(l + desc_word@ =~= l + "?_"@ + w@ + "_desc_"@);
        }
        Ok(Step::Ran)
    }
}


/// Number of `$` placeholders in a span of the tape.
pub open spec fn placeholders(span: Seq<Cell>) -> int
    decreases span.len(),
{
    if span.len() == 0 {
        0
    } else {
        placeholders(span.drop_last()) + if is_word(span.last(), "$"@) {
            1int
        } else {
            0int
        }
    }
}

/// The span with its `k` placeholders `$` filled from the stack of `p`,
/// where the block itself is on top: the last placeholder takes the cell just
/// below the block, the one before it the next cell down, and so on, so the
/// placeholder with `j` placeholders before it takes `p.top(k - j)`.
pub open spec fn fill(span: Seq<Cell>, p: Pack, k: int) -> Seq<Cell>
    decreases span.len(),
{
    if span.len() == 0 {
        Seq::empty()
    } else {
        let prev = span.drop_last();
        fill(prev, p, k).push(
            if is_word(span.last(), "$"@) {
                p.top(k - placeholders(prev))
            } else {
                span.last()
            },
        )
    }
}

/// The cells `block` puts before the copied span: `len+1 skip {`, so that
/// running straight into the copy jumps over it.
pub open spec fn template_header(len: int) -> Seq<CellView> {
    seq![CellView::Integer((len + 1) as i64), CellView::Word("skip"@), CellView::Word("{"@)]
}

/// `block`: copies the block on top to the end of the tape, filling its `$`
/// placeholders from the stack, and pushes a reference to the copy.
pub open spec fn template_post(p: Pack, q: Pack, r: Result<Step, Error>) -> bool {
    if p.vis().len() == 0 {
        failed(p, q, r, ErrorKind::StackUnderflow)
    } else if !(p.top(0) is Block) {
        failed(p, q, r, ErrorKind::TypeMismatch)
    } else {
        let b = p.top(0)->Block_0;
        let n = p.tape().len();
        if b.pos + b.len > n {
            failed(p, q, r, ErrorKind::BadAddress)
        } else {
            let span = p.tape().subrange(b.pos as int, b.pos + b.len);
            let k = placeholders(span);
            if p.vis().len() < k + 1 {
                failed(p, q, r, ErrorKind::StackUnderflow)
            } else if b.len + 1 > i64::MAX || n + 3 + b.len > usize::MAX {
                failed(p, q, r, ErrorKind::Overflow)
            } else {
                &&& ran(r)
                &&& Pack::same_dict(p, q)
                &&& q.rets() == p.rets()
                &&& q.ptr() == p.ptr()
                &&& Pack::replaced(
                    p,
                    q,
                    k + 1,
                    CellView::Block(BlockRef { pos: (n + 3) as usize, len: b.len }),
                )
                &&& views(q.tape()) == views(p.tape()) + template_header(b.len as int) + views(
                    fill(span, p, k),
                )
            }
        }
    }
}

proof fn lemma_placeholders_bound(span: Seq<Cell>)
    ensures
        0 <= placeholders(span) <= span.len(),
    decreases span.len(),
{
    if span.len() > 0 {
        lemma_placeholders_bound(span.drop_last());
    }
}

impl Pack {
    fn count_placeholders(&self, from: usize, len: usize) -> (r: usize)
        requires
            from + len <= self.tape().len(),
        ensures
            r == placeholders(self.tape().subrange(from as int, from + len)),
    {
        let mut i: usize = 0;
        let mut k: usize = 0;
        while i < len
            invariant
                i <= len,
                from + len <= self.concat.array.len(),
                k == placeholders(self.tape().subrange(from as int, from + i)),
                k <= i,
            decreases len - i,
        {
            let ghost prev = self.tape().subrange(from as int, from + i);
            let ghost next = self.tape().subrange(from as int, from + i + 1);
            assert(next.drop_last() =~= prev);
            if let Cell::Word(w) = &self.concat.array[from + i] {
                if text_is(w.as_str(), "$") {
                    k = k + 1;
                }
            }
            i = i + 1;
        }
        k
    }

    pub(crate) fn prim_template(&mut self) -> (r: Result<Step, Error>)
        requires
            old(self).wf(),
        ensures
            final(self).wf(),
            template_post(*old(self), *final(self), r),
    {
        let b = match self.stack.get(0) {
            Some(Cell::Block(b)) => *b,
            Some(_) => { return Err(Error::of(ErrorKind::TypeMismatch, "block: expects a block")); },
            None => { return Err(Error::of(ErrorKind::StackUnderflow, "block: needs a block")); },
        };
        let n = self.concat.array.len();
        if b.pos > n || b.len > n - b.pos {
            return Err(Error::of(ErrorKind::BadAddress, "block: span is outside the tape"));
        }
        let k = self.count_placeholders(b.pos, b.len);
        if self.stack.size() - 1 < k {
            return Err(Error::of(ErrorKind::StackUnderflow, "block: not enough cells for the placeholders"));
        }
        if b.len as u128 + 1 > 9223372036854775807u128 || n as u128 + 3 + b.len as u128 > usize::MAX as u128 {
            return Err(Error::of(ErrorKind::Overflow, "block: the copy does not fit"));
        }
        let ghost p = *self;
        let ghost span = p.tape().subrange(b.pos as int, b.pos + b.len);
        self.concat.array.push(Cell::Integer(b.len as i64 + 1));
        self.concat.array.push(Cell::Word("skip".to_string()));
        self.concat.array.push(Cell::Word("{".to_string()));
        assert(views(self.tape()) =~= views(p.tape()) + template_header(b.len as int));
        let mut i: usize = 0;
        let mut used: usize = 0;
        while i < b.len
            invariant
                p.wf(),
                self.wf(),
                i <= b.len,
                b.pos + b.len <= n,
                n == p.tape().len(),
                span == p.tape().subrange(b.pos as int, b.pos + b.len),
                self.tape().len() == n + 3 + i,
                self.tape().subrange(0, n as int) == p.tape(),
                used == placeholders(span.take(i as int)),
                used <= k,
                placeholders(span) == k,
                k + 1 <= p.vis().len(),
                Pack::same_dict(p, *self),
                self.rets() == p.rets(),
                self.ptr() == p.ptr(),
                Pack::same_stack(p, *self),
                views(self.tape()) == views(p.tape()) + template_header(b.len as int) + views(
                    fill(span.take(i as int), p, k as int),
                ),
            decreases b.len - i,
        {
            let ghost before = *self;
            let ghost prev = span.take(i as int);
            let ghost next = span.take(i + 1);
            assert(next.drop_last() =~= prev);
            assert(next.last() == span[i as int]);
            assert(span[i as int] == p.tape()[b.pos + i]);
            assert(self.tape()[(b.pos + i) as int] == self.tape().subrange(0, n as int)[b.pos + i]);
            let c = self.concat.array[b.pos + i].clone();
            let is_slot = match &c {
                Cell::Word(w) => text_is(w.as_str(), "$"),
                _ => false,
            };
            assert(is_slot == is_word(span[i as int], "$"@));
            let ghost pushed_cell: Cell;
            if is_slot {
                proof {
                    lemma_placeholders_prefix(span, i + 1);
                    assert(placeholders(next) == used + 1);
                    assert(self.vis() == p.vis());
                }
                let v = match self.stack.get(k - used) {
                    Some(v) => v.clone(),
                    None => { return Err(Error::of(ErrorKind::StackUnderflow, "block: not enough cells")); },
                };
                proof {
                    assert(v == p.top(k - used));
                    pushed_cell = v;
                }
                self.concat.array.push(v);
                used = used + 1;
            } else {
                proof {
                    pushed_cell = c;
                }
                self.concat.array.push(c);
            }
            proof {
                assert(fill(next, p, k as int) == fill(prev, p, k as int).push(pushed_cell));
                assert(self.tape() == before.tape().push(pushed_cell));
                assert(views(self.tape()) =~= views(before.tape()).push(pushed_cell@));
                assert(views(fill(next, p, k as int)) =~= views(fill(prev, p, k as int)).push(pushed_cell@));
                assert(self.tape().subrange(0, n as int) =~= p.tape());
                assert(views(self.tape()) =~= views(p.tape()) + template_header(b.len as int) + views(
                    fill(next, p, k as int),
                ));
            }
            i = i + 1;
        }
        assert(span.take(b.len as int) =~= span);
        assert(used == k);
        self.replace_top(k + 1, Cell::Block(BlockRef { pos: n + 3, len: b.len }));
        proof {
            assert(p == *old(self));
        }
        Ok(Step::Ran)
    }
}

proof fn lemma_placeholders_prefix(span: Seq<Cell>, i: int)
    requires
        0 <= i <= span.len(),
    ensures
        placeholders(span.take(i)) <= placeholders(span),
    decreases span.len(),
{
    if i < span.len() {
        lemma_placeholders_prefix(span.drop_last(), i);
        assert(span.drop_last().take(i) =~= span.take(i));
    } else {
        assert(span.take(i) =~= span);
    }
}


/// `either`: `cond yes no either` enters block `yes` when `cond` is true and
/// block `no` otherwise.
pub open spec fn either_post(p: Pack, q: Pack, r: Result<Step, Error>) -> bool {
    if p.vis().len() < 3 {
        failed(p, q, r, ErrorKind::StackUnderflow)
    } else {
        match (p.top(2), p.top(1), p.top(0)) {
            (Cell::Boolean(c), Cell::Block(t), Cell::Block(f)) => {
                &&& ran(r)
                &&& Pack::same_dict(p, q)
                &&& q.tape() == p.tape()
                &&& Pack::dropped(p, q, 3)
                &&& q.rets() == p.rets().push(p.concat.pointer)
                &&& q.ptr() == if c {
                    t.pos
                } else {
                    f.pos
                }
            },
            _ => failed(p, q, r, ErrorKind::TypeMismatch),
        }
    }
}

/// How a `[ ... | ... ]` transfer ends.
pub enum Transfer {
    /// The cursor ends at the first component, the current scope holds the second.
    Done(int, Seq<Cell>),
    /// An error of this kind, with the cursor and the current scope as they
    /// were when it was found.
    Fail(ErrorKind, int, Seq<Cell>),
}

/// Binding phase of `[ names | names ]` from tape index `i`: each name takes
/// the top cell of `vis`; `|`, a cell that is not a word, or the end of the
/// tape starts the second phase.
pub open spec fn transfer_bind(tape: Seq<Cell>, i: int, vis: Seq<Cell>, env: Map<Seq<char>, DictEntry>) -> Transfer
    decreases tape.len() - i,
{
    if i < 0 || i >= tape.len() {
        transfer_push(tape, i, vis, env)
    } else {
        match tape[i] {
            Cell::Word(w) => if w@ == "|"@ {
                transfer_push(tape, i + 1, vis, env)
            } else if vis.len() == 0 {
                Transfer::Fail(ErrorKind::StackUnderflow, i + 1, vis)
            } else {
                transfer_bind(tape, i + 1, vis.drop_last(), env.insert(w@, DictEntry::Data(vis.last())))
            },
            _ => transfer_push(tape, i + 1, vis, env),
        }
    }
}

/// Pushing phase from tape index `i`: each name pushes the cell bound to it;
/// `]`, a cell that is not a word, or the end of the tape ends the transfer.
pub open spec fn transfer_push(tape: Seq<Cell>, i: int, vis: Seq<Cell>, env: Map<Seq<char>, DictEntry>) -> Transfer
    decreases tape.len() - i,
{
    if i < 0 || i >= tape.len() {
        Transfer::Done(i, vis)
    } else {
        match tape[i] {
            Cell::Word(w) => if w@ == "]"@ {
                Transfer::Done(i + 1, vis)
            } else if env.contains_key(w@) && env[w@] is Data {
                transfer_push(tape, i + 1, vis.push(env[w@]->Data_0), env)
            } else {
                Transfer::Fail(ErrorKind::UndefinedWord, i + 1, vis)
            },
            _ => Transfer::Done(i + 1, vis),
        }
    }
}

/// `[ a b | b a ]`: pops one cell per name of the first list (the first name
/// takes the top, the next one the cell below it), then pushes the cells
/// named by the second list.
pub open spec fn bracket_post(p: Pack, q: Pack, r: Result<Step, Error>) -> bool {
    match transfer_bind(p.tape(), p.ptr(), p.vis(), Map::empty()) {
        Transfer::Fail(k, e, v) => {
            &&& fails(r, k)
            &&& Pack::same_dict(p, q)
            &&& q.tape() == p.tape()
            &&& q.rets() == p.rets()
            &&& q.ptr() == e
            &&& Stack::same_scopes(&p.stack, &q.stack)
            &&& q.stack.cells() == p.stack.cells().subrange(0, p.stack.base()) + v
        },
        Transfer::Done(e, v) => {
            &&& ran(r)
            &&& Pack::same_dict(p, q)
            &&& q.tape() == p.tape()
            &&& q.rets() == p.rets()
            &&& q.ptr() == e
            &&& Stack::same_scopes(&p.stack, &q.stack)
            &&& q.stack.cells() == p.stack.cells().subrange(0, p.stack.base()) + v
        },
    }
}

impl Pack {
    pub(crate) fn prim_either(&mut self) -> (r: Result<Step, Error>)
        requires
            old(self).wf(),
        ensures
            final(self).wf(),
            either_post(*old(self), *final(self), r),
    {
        if self.stack.size() < 3 {
            return Err(Error::of(ErrorKind::StackUnderflow, "either: needs a condition and two blocks"));
        }
        let f = match self.stack.get(0) {
            Some(Cell::Block(b)) => *b,
            _ => { return Err(Error::of(ErrorKind::TypeMismatch, "either: needs a condition and two blocks")); },
        };
        let t = match self.stack.get(1) {
            Some(Cell::Block(b)) => *b,
            _ => { return Err(Error::of(ErrorKind::TypeMismatch, "either: needs a condition and two blocks")); },
        };
        let c = match self.stack.get(2) {
            Some(Cell::Boolean(c)) => *c,
            _ => { return Err(Error::of(ErrorKind::TypeMismatch, "either: needs a condition and two blocks")); },
        };
        self.drop_top(3);
        self.ret.push(self.concat.pointer);
        self.concat.pointer = if c {
            t.pos
        } else {
            f.pos
        };
        Ok(Step::Ran)
    }

    pub(crate) fn prim_bracket(&mut self) -> (r: Result<Step, Error>)
        requires
            old(self).wf(),
        ensures
            final(self).wf(),
            bracket_post(*old(self), *final(self), r),
    {
        let ghost p = *self;
        let ghost below = p.stack.cells().subrange(0, p.stack.base());
        let mut env = WordTable::new();
        let mut binding = true;
        assert(p.stack.cells() =~= below + p.vis());
        while binding
            invariant
                p == *old(self),
                p.wf(),
                self.wf(),
                Pack::same_dict(p, *self),
                self.tape() == p.tape(),
                self.rets() == p.rets(),
                Stack::same_scopes(&p.stack, &self.stack),
                self.stack.cells() == below + self.vis(),
                below == p.stack.cells().subrange(0, p.stack.base()),
                forall|k: Seq<char>| #[trigger] env@.contains_key(k) ==> env@[k] is Data,
                binding ==> transfer_bind(p.tape(), p.ptr(), p.vis(), Map::empty()) == transfer_bind(
                    self.tape(),
                    self.ptr(),
                    self.vis(),
                    env@,
                ),
                !binding ==> transfer_bind(p.tape(), p.ptr(), p.vis(), Map::empty()) == transfer_push(
                    self.tape(),
                    self.ptr(),
                    self.vis(),
                    env@,
                ),
            decreases self.tape().len() - self.ptr(), if binding { 1int } else { 0int },
        {
            match self.concat.next() {
                Some(Cell::Word(w)) => {
                    if text_is(w.as_str(), "|") {
                        binding = false;
                    } else {
                        let name = w.clone();
                        match self.stack.pop() {
                            Some(c) => {
                                env.insert(name, DictEntry::Data(c));
                                assert(self.stack.cells() =~= below + self.vis());
                            },
                            None => {
                                return Err(Error::of(ErrorKind::StackUnderflow, "[: stack is empty"));
                            },
                        }
                    }
                },
                _ => {
                    binding = false;
                },
            }
        }
        let ghost mid = self.vis();
        loop
            invariant
                p == *old(self),
                p.wf(),
                self.wf(),
                Pack::same_dict(p, *self),
                self.tape() == p.tape(),
                self.rets() == p.rets(),
                Stack::same_scopes(&p.stack, &self.stack),
                self.stack.cells() == below + self.vis(),
                below == p.stack.cells().subrange(0, p.stack.base()),
                forall|k: Seq<char>| #[trigger] env@.contains_key(k) ==> env@[k] is Data,
                transfer_bind(p.tape(), p.ptr(), p.vis(), Map::empty()) == transfer_push(
                    self.tape(),
                    self.ptr(),
                    self.vis(),
                    env@,
                ),
            decreases self.tape().len() - self.ptr(),
        {
            match self.concat.next() {
                Some(Cell::Word(w)) => {
                    if text_is(w.as_str(), "]") {
                        return Ok(Step::Ran);
                    }
                    match env.get(w.as_str()) {
                        Some(DictEntry::Data(c)) => {
                            let c = c.clone();
                            self.stack.push(c);
                            assert(self.stack.cells() =~= below + self.vis());
                        },
                        _ => {
                            return Err(Error::of(ErrorKind::UndefinedWord, "[: name is not bound"));
                        },
                    }
                },
                _ => {
                    return Ok(Step::Ran);
                },
            }
        }
    }
}


/// The block of the defined word named by tape cell `i`, if it is one.
pub open spec fn defined_at(p: Pack, i: int) -> Option<BlockRef> {
    if 0 <= i < p.tape().len() && p.tape()[i] is Word && p.words().contains_key(p.tape()[i]->Word_0@)
        && p.words()[p.tape()[i]->Word_0@] is Defined {
        Some(p.words()[p.tape()[i]->Word_0@]->Defined_0)
    } else {
        None
    }
}

/// `while cond do action`: saves the address of `while` (to come back to)
/// and of `do` (where the condition returns), then enters the condition word.
pub open spec fn while_post(p: Pack, q: Pack, r: Result<Step, Error>) -> bool {
    let i = p.ptr();
    if i == 0 || i + 2 >= p.tape().len() || defined_at(p, i) is None {
        failed(p, q, r, ErrorKind::MissingArgument)
    } else {
        &&& ran(r)
        &&& Pack::only_control(p, q)
        &&& q.rets() == p.rets().push((i - 1) as usize).push((i + 1) as usize)
        &&& q.ptr() == defined_at(p, i)->Some_0.pos
    }
}

/// `do action`: with a true condition enters the action word (which returns
/// to `while`); with a false one drops the saved `while` address and skips
/// the action.
pub open spec fn do_post(p: Pack, q: Pack, r: Result<Step, Error>) -> bool {
    let i = p.ptr();
    if defined_at(p, i) is None {
        failed(p, q, r, ErrorKind::MissingArgument)
    } else if p.vis().len() == 0 {
        failed(p, q, r, ErrorKind::StackUnderflow)
    } else if !(p.top(0) is Boolean) {
        failed(p, q, r, ErrorKind::TypeMismatch)
    } else if p.top(0)->Boolean_0 {
        &&& ran(r)
        &&& Pack::same_dict(p, q)
        &&& q.tape() == p.tape()
        &&& Pack::dropped(p, q, 1)
        &&& q.rets() == p.rets()
        &&& q.ptr() == defined_at(p, i)->Some_0.pos
    } else {
        &&& ran(r)
        &&& Pack::same_dict(p, q)
        &&& q.tape() == p.tape()
        &&& Pack::dropped(p, q, 1)
        &&& q.rets() == if p.rets().len() > 0 {
            p.rets().drop_last()
        } else {
            p.rets()
        }
        &&& q.ptr() == i + 1
    }
}

impl Pack {
    /// The block of the defined word named by the tape cell at `i`, if it is one.
    fn defined_word_at(&self, i: usize) -> (r: Option<BlockRef>)
        ensures
            r == defined_at(*self, i as int),
    {
        if i >= self.concat.array.len() {
            return None;
        }
        match &self.concat.array[i] {
            Cell::Word(w) => match self.dictionary.get(w.as_str()) {
                Some(DictEntry::Defined(b)) => Some(*b),
                _ => None,
            },
            _ => None,
        }
    }

    pub(crate) fn prim_while(&mut self) -> (r: Result<Step, Error>)
        requires
            old(self).wf(),
        ensures
            final(self).wf(),
            while_post(*old(self), *final(self), r),
    {
        let i = self.concat.pointer;
        if i == 0 || i >= self.concat.array.len() || self.concat.array.len() - i <= 2 {
            return Err(Error::of(ErrorKind::MissingArgument, "while: expects 'while condition do action'"));
        }
        let cond = match self.defined_word_at(i) {
            Some(b) => b,
            None => { return Err(Error::of(ErrorKind::MissingArgument, "while: the condition must be a defined word")); },
        };
        self.ret.push(i - 1);
        self.ret.push(i + 1);
        self.concat.pointer = cond.pos;
        Ok(Step::Ran)
    }

    pub(crate) fn prim_do(&mut self) -> (r: Result<Step, Error>)
        requires
            old(self).wf(),
        ensures
            final(self).wf(),
            do_post(*old(self), *final(self), r),
    {
        let i = self.concat.pointer;
        let action = match self.defined_word_at(i) {
            Some(b) => b,
            None => { return Err(Error::of(ErrorKind::MissingArgument, "do: the action must be a defined word")); },
        };
        let n = self.concat.array.len();
        assert(i < n);
        let cond = match self.stack.get(0) {
            Some(Cell::Boolean(b)) => *b,
            Some(_) => { return Err(Error::of(ErrorKind::TypeMismatch, "do: expects a boolean")); },
            None => { return Err(Error::of(ErrorKind::StackUnderflow, "do: needs a boolean")); },
        };
        self.drop_top(1);
        if cond {
            self.concat.pointer = action.pos;
        } else {
            let _ = self.ret.pop();
            self.concat.pointer = i + 1;
        }
        Ok(Step::Ran)
    }
}

} // verus!
