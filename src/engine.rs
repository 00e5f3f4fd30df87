use vstd::prelude::*;
use vstd::string::*;
use crate::cell::{bytes_of, views, BlockRef, Cell, CellView};
use crate::concat::Concat;
use crate::prelude::PRELUDE;
use crate::stack::{RetStack, Stack};
use crate::tokenizer::{tokenize, tokens};
use crate::dictionary::Dictionary;
use crate::dictionary::{DictEntry, NativeFn};
use crate::error::{Error, ErrorKind};
use crate::pack::{failed, fails, HostCall, Pack, Step};
use crate::primitives::{
    again_post, arith_post, atat_post, atdef_post, break_post, close_curly_post, close_paren_post,
    bracket_post, close_lex_post, do_post, while_post, compare_post, either_post, convert_post, help_post, lex_post, template_post, exists_post, lex_value_post, logic_post, loop_post, leave_post,
    nop_post, not_post, number_convert_post, open_curly_post, open_paren_post, ran, size_post,
    skip_post, type_post, wipe_post, ArithOp, CmpOp, LogicOp, Prim,
};

verus! {

/// Executing cell `c` in state `p` gives state `q` and result `r`: a word is
/// looked up and run, the empty sentinel is an error, any other cell is pushed.
pub open spec fn cell_post(c: Cell, p: Pack, q: Pack, r: Result<Step, Error>) -> bool
    decreases p.stack.cells().len(), 4int,
{
    match c {
        Cell::Word(w) => word_post(w@, p, q, r),
        Cell::Empty => failed(p, q, r, ErrorKind::InvalidCell),
        _ => ran(r) && Pack::only_stack(p, q) && Pack::pushed(p, q, c),
    }
}

/// Executing the word named `w`: its dictionary entry, or an undefined-word error.
pub open spec fn word_post(w: Seq<char>, p: Pack, q: Pack, r: Result<Step, Error>) -> bool
    decreases p.stack.cells().len(), 3int,
{
    if p.words().contains_key(w) {
        entry_post(p.words()[w], p, q, r)
    } else {
        failed(p, q, r, ErrorKind::UndefinedWord)
    }
}

/// Executing a dictionary entry: a primitive runs, a host native goes to the
/// host, a defined word saves the cursor and jumps into its block, a constant
/// is pushed.
pub open spec fn entry_post(e: DictEntry, p: Pack, q: Pack, r: Result<Step, Error>) -> bool
    decreases p.stack.cells().len(), 2int,
{
    match e {
        DictEntry::Native(NativeFn::Core(prim)) => prim_post(prim, p, q, r),
        DictEntry::Native(NativeFn::Host(id)) => r == Ok::<Step, Error>(
            Step::Host(HostCall::Native(id)),
        ) && Pack::unchanged(p, q),
        DictEntry::Defined(b) => {
            &&& ran(r)
            &&& Pack::only_control(p, q)
            &&& q.ptr() == b.pos
            &&& q.rets() == p.rets().push(p.concat.pointer)
        },
        DictEntry::Data(c) => ran(r) && Pack::only_stack(p, q) && Pack::pushed(p, q, c),
    }
}

/// `if`: `cond if yes no` runs the tape cell `yes` when `cond` is true and
/// `no` otherwise, and resumes after both.
pub open spec fn if_post(p: Pack, q: Pack, r: Result<Step, Error>) -> bool
    decreases p.stack.cells().len(), 0int,
{
    if p.vis().len() == 0 {
        failed(p, q, r, ErrorKind::StackUnderflow)
    } else if !(p.top(0) is Boolean) {
        failed(p, q, r, ErrorKind::TypeMismatch)
    } else {
        let idx = p.ptr() + if p.top(0)->Boolean_0 {
            0int
        } else {
            1int
        };
        if idx >= p.tape().len() {
            failed(p, q, r, ErrorKind::MissingArgument)
        } else {
            exists|m: Pack|
                #![trigger Pack::dropped(p, m, 1)]
                Pack::dropped(p, m, 1) && m.wf() && Pack::same_dict(p, m) && m.tape() == p.tape()
                    && m.rets() == p.rets() && m.ptr() == (if p.ptr() + 2 <= p.tape().len() {
                    p.ptr() + 2
                } else {
                    p.tape().len() as int
                }) && cell_post(p.tape()[idx], m, q, r)
        }
    }
}

/// `exe`: runs the block or the word on top; any other cell stays where it is.
pub open spec fn exe_post(p: Pack, q: Pack, r: Result<Step, Error>) -> bool
    decreases p.stack.cells().len(), 0int,
{
    if p.vis().len() == 0 {
        failed(p, q, r, ErrorKind::StackUnderflow)
    } else {
        match p.top(0) {
            Cell::Block(b) => {
                &&& ran(r)
                &&& Pack::same_dict(p, q)
                &&& q.tape() == p.tape()
                &&& Pack::dropped(p, q, 1)
                &&& q.ptr() == b.pos
                &&& q.rets() == p.rets().push(p.concat.pointer)
            },
            Cell::Word(w) => exists|m: Pack|
                #![trigger Pack::dropped(p, m, 1)]
                Pack::dropped(p, m, 1) && m.wf() && Pack::only_stack(p, m) && word_post(w@, m, q, r),
            _ => ran(r) && Pack::unchanged(p, q),
        }
    }
}

/// What each primitive does.
pub open spec fn prim_post(prim: Prim, p: Pack, q: Pack, r: Result<Step, Error>) -> bool
    decreases p.stack.cells().len(), 1int,
{
    match prim {
        Prim::OpenParen => open_paren_post(p, q, r),
        Prim::CloseParen => close_paren_post(p, q, r),
        Prim::Size => size_post(p, q, r),
        Prim::OpenCurly => open_curly_post(p, q, r),
        Prim::CloseCurly => close_curly_post(p, q, r),
        Prim::Arith(op) => arith_post(op, p, q, r),
        Prim::Compare(op) => compare_post(op, p, q, r),
        Prim::Logic(op) => logic_post(op, p, q, r),
        Prim::Not => not_post(p, q, r),
        Prim::Wipe => wipe_post(p, q, r),
        Prim::If => if_post(p, q, r),
        Prim::Exe => exe_post(p, q, r),
        Prim::ToInt => number_convert_post(true, p, q, r),
        Prim::ToFloat => number_convert_post(false, p, q, r),
        Prim::ToString => convert_post(true, p, q, r),
        Prim::ToWord => convert_post(false, p, q, r),
        Prim::TypeName => type_post(p, q, r),
        Prim::AtAt => atat_post(p, q, r),
        Prim::AtDef => atdef_post(p, q, r),
        Prim::LexValue => lex_value_post(p, q, r),
        Prim::Skip => skip_post(p, q, r),
        Prim::Exists => exists_post(p, q, r),
        Prim::Nop => nop_post(p, q, r),
        Prim::Break => break_post(p, q, r),
        Prim::Leave => leave_post(p, q, r),
        Prim::Loop => loop_post(p, q, r),
        Prim::Again => again_post(p, q, r),
        Prim::Lex => lex_post(p, q, r),
        Prim::CloseLex => close_lex_post(p, q, r),
        Prim::Help => help_post(p, q, r),
        Prim::Template => template_post(p, q, r),
        Prim::Either => either_post(p, q, r),
        Prim::OpenBracket => bracket_post(p, q, r),
        Prim::While => while_post(p, q, r),
        Prim::Do => do_post(p, q, r),
    }
}

/// One step from `p`: the end of the tape, or the cell under the cursor
/// executed with the cursor already past it.
pub open spec fn step_post(p: Pack, q: Pack, r: Result<Step, Error>) -> bool {
    if p.ptr() >= p.tape().len() {
        r == Ok::<Step, Error>(Step::End) && Pack::unchanged(p, q)
    } else {
        exists|m: Pack|
            #![trigger Pack::advanced(p, m)]
            Pack::advanced(p, m) && cell_post(p.tape()[p.ptr()], m, q, r)
    }
}

/// A single step never reports a spent budget: only runs do.
pub proof fn lemma_step_not_budget(p: Pack, q: Pack, r: Result<Step, Error>)
    requires
        step_post(p, q, r),
    ensures
        r != Ok::<Step, Error>(Step::Budget),
{
    if p.ptr() < p.tape().len() {
        let m = choose|m: Pack| Pack::advanced(p, m) && cell_post(p.tape()[p.ptr()], m, q, r);
        lemma_cell_not_budget(p.tape()[p.ptr()], m, q, r);
    }
}

proof fn lemma_cell_not_budget(c: Cell, p: Pack, q: Pack, r: Result<Step, Error>)
    requires
        cell_post(c, p, q, r),
    ensures
        r != Ok::<Step, Error>(Step::Budget),
    decreases p.stack.cells().len(), 4int,
{
    if let Cell::Word(w) = c {
        lemma_word_not_budget(w@, p, q, r);
    }
}

proof fn lemma_word_not_budget(w: Seq<char>, p: Pack, q: Pack, r: Result<Step, Error>)
    requires
        word_post(w, p, q, r),
    ensures
        r != Ok::<Step, Error>(Step::Budget),
    decreases p.stack.cells().len(), 3int,
{
    if p.words().contains_key(w) {
        lemma_entry_not_budget(p.words()[w], p, q, r);
    }
}

proof fn lemma_entry_not_budget(e: DictEntry, p: Pack, q: Pack, r: Result<Step, Error>)
    requires
        entry_post(e, p, q, r),
    ensures
        r != Ok::<Step, Error>(Step::Budget),
    decreases p.stack.cells().len(), 2int,
{
    if let DictEntry::Native(NativeFn::Core(prim)) = e {
        lemma_prim_not_budget(prim, p, q, r);
    }
}

proof fn lemma_prim_not_budget(prim: Prim, p: Pack, q: Pack, r: Result<Step, Error>)
    requires
        prim_post(prim, p, q, r),
    ensures
        r != Ok::<Step, Error>(Step::Budget),
    decreases p.stack.cells().len(), 1int,
{
    match prim {
        Prim::If => {
            if p.vis().len() > 0 && p.top(0) is Boolean {
                let idx = p.ptr() + if p.top(0)->Boolean_0 {
                    0int
                } else {
                    1int
                };
                if idx < p.tape().len() {
                    let m = choose|m: Pack|
                        #![trigger Pack::dropped(p, m, 1)]
                        Pack::dropped(p, m, 1) && m.wf() && Pack::same_dict(p, m) && m.tape()
                            == p.tape() && m.rets() == p.rets() && m.ptr() == (if p.ptr() + 2
                            <= p.tape().len() {
                            p.ptr() + 2
                        } else {
                            p.tape().len() as int
                        }) && cell_post(p.tape()[idx], m, q, r);
                    lemma_cell_not_budget(p.tape()[idx], m, q, r);
                }
            }
        },
        Prim::Exe => {
            if p.vis().len() > 0 {
                if let Cell::Word(w) = p.top(0) {
                    let m = choose|m: Pack|
                        #![trigger Pack::dropped(p, m, 1)]
                        Pack::dropped(p, m, 1) && m.wf() && Pack::only_stack(p, m) && word_post(
                            w@,
                            m,
                            q,
                            r,
                        );
                    lemma_word_not_budget(w@, m, q, r);
                }
            }
        },
        _ => {},
    }
}

impl Pack {
    /// `m` is `p` with the cursor moved one cell on.
    pub open spec fn advanced(p: Pack, m: Pack) -> bool {
        &&& m.wf()
        &&& Pack::same_dict(p, m)
        &&& Pack::same_stack(p, m)
        &&& m.tape() == p.tape()
        &&& m.rets() == p.rets()
        &&& m.ptr() == p.ptr() + 1
    }

    /// Executes a cell as if it had just been read from the tape.
    fn exec_cell(&mut self, c: Cell) -> (r: Result<Step, Error>)
        requires
            old(self).wf(),
        ensures
            final(self).wf(),
            cell_post(c, *old(self), *final(self), r),
        decreases old(self).stack.cells().len(), 4int,
    {
        match c {
            Cell::Word(w) => self.exec(w.as_str()),
            Cell::Empty => Err(Error::of(ErrorKind::InvalidCell, "the empty cell cannot be executed")),
            _ => {
                self.stack.push(c);
                Ok(Step::Ran)
            },
        }
    }

    /// Executes a word from the dictionary, by its full name. A defined word
    /// only sets up the jump: the following steps run its body.
    pub fn exec(&mut self, word: &str) -> (r: Result<Step, Error>)
        requires
            old(self).wf(),
        ensures
            final(self).wf(),
            word_post(word@, *old(self), *final(self), r),
        decreases old(self).stack.cells().len(), 3int,
    {
        let entry = match self.dictionary.get(word) {
            Some(e) => e.clone(),
            None => {
                let msg = String::from_str("word '").concat(word).concat("' is not in the dictionary");
                return Err(Error::new(msg, ErrorKind::UndefinedWord));
            },
        };
        self.exec_dict_entry(entry)
    }

    /// Executes a dictionary entry.
    pub fn exec_dict_entry(&mut self, dict_entry: DictEntry) -> (r: Result<Step, Error>)
        requires
            old(self).wf(),
        ensures
            final(self).wf(),
            entry_post(dict_entry, *old(self), *final(self), r),
        decreases old(self).stack.cells().len(), 2int,
    {
        match dict_entry {
            DictEntry::Native(NativeFn::Core(prim)) => self.exec_prim(prim),
            DictEntry::Native(NativeFn::Host(id)) => Ok(Step::Host(HostCall::Native(id))),
            DictEntry::Defined(block) => {
                self.ret.push(self.concat.pointer);
                self.concat.pointer = block.pos;
                Ok(Step::Ran)
            },
            DictEntry::Data(cell) => {
                self.stack.push(cell);
                Ok(Step::Ran)
            },
        }
    }

    fn exec_prim(&mut self, prim: Prim) -> (r: Result<Step, Error>)
        requires
            old(self).wf(),
        ensures
            final(self).wf(),
            prim_post(prim, *old(self), *final(self), r),
        decreases old(self).stack.cells().len(), 1int,
    {
        match prim {
            Prim::OpenParen => self.prim_open_paren(),
            Prim::CloseParen => self.prim_close_paren(),
            Prim::Size => self.prim_size(),
            Prim::OpenCurly => self.prim_open_curly(),
            Prim::CloseCurly => self.prim_close_curly(),
            Prim::Arith(op) => self.prim_arith(op),
            Prim::Compare(op) => self.prim_compare(op),
            Prim::Logic(op) => self.prim_logic(op),
            Prim::Not => self.prim_not(),
            Prim::Wipe => self.prim_wipe(),
            Prim::If => self.prim_if(),
            Prim::Exe => self.prim_exe(),
            Prim::ToInt => self.prim_number_convert(true),
            Prim::ToFloat => self.prim_number_convert(false),
            Prim::ToString => self.prim_convert(true),
            Prim::ToWord => self.prim_convert(false),
            Prim::TypeName => self.prim_type(),
            Prim::AtAt => self.prim_atat(),
            Prim::AtDef => self.prim_atdef(),
            Prim::LexValue => self.prim_lex_value(),
            Prim::Skip => self.prim_skip(),
            Prim::Exists => self.prim_exists(),
            Prim::Nop => Ok(Step::Ran),
            Prim::Break => self.prim_break(),
            Prim::Leave => self.prim_leave(),
            Prim::Loop => self.prim_loop(),
            Prim::Again => self.prim_again(),
            Prim::Lex => self.prim_lex(),
            Prim::CloseLex => self.prim_close_lex(),
            Prim::Help => self.prim_help(),
            Prim::Template => self.prim_template(),
            Prim::Either => self.prim_either(),
            Prim::OpenBracket => self.prim_bracket(),
            Prim::While => self.prim_while(),
            Prim::Do => self.prim_do(),
        }
    }

    fn prim_if(&mut self) -> (r: Result<Step, Error>)
        requires
            old(self).wf(),
        ensures
            final(self).wf(),
            if_post(*old(self), *final(self), r),
        decreases old(self).stack.cells().len(), 0int,
    {
        let cond = match self.stack.get(0) {
            Some(Cell::Boolean(b)) => *b,
            Some(_) => { return Err(Error::of(ErrorKind::TypeMismatch, "if: expects a boolean")); },
            None => { return Err(Error::of(ErrorKind::StackUnderflow, "if: needs a boolean")); },
        };
        let p = self.concat.pointer;
        let n = self.concat.array.len();
        let idx = if cond {
            p
        } else {
            if p == usize::MAX {
                return Err(Error::of(ErrorKind::MissingArgument, "if: needs two cells after it"));
            }
            p + 1
        };
        if idx >= n {
            return Err(Error::of(ErrorKind::MissingArgument, "if: needs two cells after it"));
        }
        let c = self.concat.array[idx].clone();
        self.drop_top(1);
        self.concat.pointer = if n >= 2 && p <= n - 2 {
            p + 2
        } else {
            n
        };
        let ghost m = *self;
        let r = self.exec_cell(c);
        assert(Pack::dropped(*old(self), m, 1));
        r
    }

    fn prim_exe(&mut self) -> (r: Result<Step, Error>)
        requires
            old(self).wf(),
        ensures
            final(self).wf(),
            exe_post(*old(self), *final(self), r),
        decreases old(self).stack.cells().len(), 0int,
    {
        let top = match self.stack.get(0) {
            Some(c) => c.clone(),
            None => { return Err(Error::of(ErrorKind::StackUnderflow, "exe: stack is empty")); },
        };
        match top {
            Cell::Block(b) => {
                self.drop_top(1);
                self.ret.push(self.concat.pointer);
                self.concat.pointer = b.pos;
                Ok(Step::Ran)
            },
            Cell::Word(w) => {
                self.drop_top(1);
                let ghost m = *self;
                let r = self.exec(w.as_str());
                assert(Pack::dropped(*old(self), m, 1));
                r
            },
            _ => Ok(Step::Ran),
        }
    }

    /// Executes the cell under the cursor. `Ok(Step::End)` when the cursor is
    /// past the end of the tape.
    pub fn one_step(&mut self) -> (r: Result<Step, Error>)
        requires
            old(self).wf(),
        ensures
            final(self).wf(),
            step_post(*old(self), *final(self), r),
    {
        if self.concat.pointer >= self.concat.array.len() {
            return Ok(Step::End);
        }
        let c = self.concat.array[self.concat.pointer].clone();
        self.concat.pointer = self.concat.pointer + 1;
        let ghost m = *self;
        let r = self.exec_cell(c);
        assert(Pack::advanced(*old(self), m));
        r
    }
}


/// The primitive words, in the order in which they are registered.
pub open spec fn core_words() -> Seq<(&'static str, NativeFn)> {
    seq![
        ("(", NativeFn::Core(Prim::OpenParen)),
        (")", NativeFn::Core(Prim::CloseParen)),
        ("size", NativeFn::Core(Prim::Size)),
        ("{", NativeFn::Core(Prim::OpenCurly)),
        ("}", NativeFn::Core(Prim::CloseCurly)),
        ("lex", NativeFn::Core(Prim::Lex)),
        ("\\lex", NativeFn::Core(Prim::CloseLex)),
        ("+", NativeFn::Core(Prim::Arith(ArithOp::Add))),
        ("-", NativeFn::Core(Prim::Arith(ArithOp::Sub))),
        ("*", NativeFn::Core(Prim::Arith(ArithOp::Mul))),
        ("/", NativeFn::Core(Prim::Arith(ArithOp::Div))),
        ("%", NativeFn::Core(Prim::Arith(ArithOp::Rem))),
        (">", NativeFn::Core(Prim::Compare(CmpOp::Gt))),
        ("<", NativeFn::Core(Prim::Compare(CmpOp::Lt))),
        ("=", NativeFn::Core(Prim::Compare(CmpOp::Eq))),
        ("!=", NativeFn::Core(Prim::Compare(CmpOp::Ne))),
        (">=", NativeFn::Core(Prim::Compare(CmpOp::Ge))),
        ("<=", NativeFn::Core(Prim::Compare(CmpOp::Le))),
        ("and", NativeFn::Core(Prim::Logic(LogicOp::And))),
        ("or", NativeFn::Core(Prim::Logic(LogicOp::Or))),
        ("not", NativeFn::Core(Prim::Not)),
        ("wipe", NativeFn::Core(Prim::Wipe)),
        ("if", NativeFn::Core(Prim::If)),
        ("either", NativeFn::Core(Prim::Either)),
        ("[", NativeFn::Core(Prim::OpenBracket)),
        ("exe", NativeFn::Core(Prim::Exe)),
        ("int", NativeFn::Core(Prim::ToInt)),
        ("float", NativeFn::Core(Prim::ToFloat)),
        ("string", NativeFn::Core(Prim::ToString)),
        ("word", NativeFn::Core(Prim::ToWord)),
        ("type", NativeFn::Core(Prim::TypeName)),
        ("?", NativeFn::Core(Prim::Help)),
        ("@@", NativeFn::Core(Prim::AtAt)),
        ("@def", NativeFn::Core(Prim::AtDef)),
        ("lex#", NativeFn::Core(Prim::LexValue)),
        ("skip", NativeFn::Core(Prim::Skip)),
        ("block", NativeFn::Core(Prim::Template)),
        ("exist?", NativeFn::Core(Prim::Exists)),
        ("_", NativeFn::Core(Prim::Nop)),
        ("break", NativeFn::Core(Prim::Break)),
        ("leave", NativeFn::Core(Prim::Leave)),
        ("loop", NativeFn::Core(Prim::Loop)),
        ("again", NativeFn::Core(Prim::Again)),
        ("while", NativeFn::Core(Prim::While)),
        ("do", NativeFn::Core(Prim::Do))
    ]
}

fn core_table() -> (r: Vec<(&'static str, NativeFn)>)
    ensures
        r@ == core_words(),
{
    vec![
        ("(", NativeFn::Core(Prim::OpenParen)),
        (")", NativeFn::Core(Prim::CloseParen)),
        ("size", NativeFn::Core(Prim::Size)),
        ("{", NativeFn::Core(Prim::OpenCurly)),
        ("}", NativeFn::Core(Prim::CloseCurly)),
        ("lex", NativeFn::Core(Prim::Lex)),
        ("\\lex", NativeFn::Core(Prim::CloseLex)),
        ("+", NativeFn::Core(Prim::Arith(ArithOp::Add))),
        ("-", NativeFn::Core(Prim::Arith(ArithOp::Sub))),
        ("*", NativeFn::Core(Prim::Arith(ArithOp::Mul))),
        ("/", NativeFn::Core(Prim::Arith(ArithOp::Div))),
        ("%", NativeFn::Core(Prim::Arith(ArithOp::Rem))),
        (">", NativeFn::Core(Prim::Compare(CmpOp::Gt))),
        ("<", NativeFn::Core(Prim::Compare(CmpOp::Lt))),
        ("=", NativeFn::Core(Prim::Compare(CmpOp::Eq))),
        ("!=", NativeFn::Core(Prim::Compare(CmpOp::Ne))),
        (">=", NativeFn::Core(Prim::Compare(CmpOp::Ge))),
        ("<=", NativeFn::Core(Prim::Compare(CmpOp::Le))),
        ("and", NativeFn::Core(Prim::Logic(LogicOp::And))),
        ("or", NativeFn::Core(Prim::Logic(LogicOp::Or))),
        ("not", NativeFn::Core(Prim::Not)),
        ("wipe", NativeFn::Core(Prim::Wipe)),
        ("if", NativeFn::Core(Prim::If)),
        ("either", NativeFn::Core(Prim::Either)),
        ("[", NativeFn::Core(Prim::OpenBracket)),
        ("exe", NativeFn::Core(Prim::Exe)),
        ("int", NativeFn::Core(Prim::ToInt)),
        ("float", NativeFn::Core(Prim::ToFloat)),
        ("string", NativeFn::Core(Prim::ToString)),
        ("word", NativeFn::Core(Prim::ToWord)),
        ("type", NativeFn::Core(Prim::TypeName)),
        ("?", NativeFn::Core(Prim::Help)),
        ("@@", NativeFn::Core(Prim::AtAt)),
        ("@def", NativeFn::Core(Prim::AtDef)),
        ("lex#", NativeFn::Core(Prim::LexValue)),
        ("skip", NativeFn::Core(Prim::Skip)),
        ("block", NativeFn::Core(Prim::Template)),
        ("exist?", NativeFn::Core(Prim::Exists)),
        ("_", NativeFn::Core(Prim::Nop)),
        ("break", NativeFn::Core(Prim::Break)),
        ("leave", NativeFn::Core(Prim::Leave)),
        ("loop", NativeFn::Core(Prim::Loop)),
        ("again", NativeFn::Core(Prim::Again)),
        ("while", NativeFn::Core(Prim::While)),
        ("do", NativeFn::Core(Prim::Do))
    ]
}

/// `m` with each `(name, f)` of `t`, in order, bound to `prefix + name`.
pub open spec fn with_natives<'a>(
    m: Map<Seq<char>, DictEntry>,
    prefix: Seq<char>,
    t: Seq<(&'a str, NativeFn)>,
) -> Map<Seq<char>, DictEntry>
    decreases t.len(),
{
    if t.len() == 0 {
        m
    } else {
        with_natives(m, prefix, t.drop_last()).insert(prefix + t.last().0@, DictEntry::Native(t.last().1))
    }
}

/// `states` and `results` record a run from `p` to `q`: each step goes from
/// one state to the next with its result, and every step but the last one
/// returned `Ok(Step::Ran)`.
pub open spec fn trace(p: Pack, q: Pack, states: Seq<Pack>, results: Seq<Result<Step, Error>>) -> bool {
    &&& states.len() == results.len() + 1
    &&& states[0] == p
    &&& states.last() == q
    &&& forall|i: int| 0 <= i < results.len() ==> step_post(states[i], states[i + 1], #[trigger] results[i])
    &&& forall|i: int| 0 <= i < results.len() - 1 ==> #[trigger] results[i] == Ok::<Step, Error>(Step::Ran)
}

/// Every recorded step returned `Ok(Step::Ran)`.
pub open spec fn all_ran(results: Seq<Result<Step, Error>>) -> bool {
    forall|i: int| 0 <= i < results.len() ==> #[trigger] results[i] == Ok::<Step, Error>(Step::Ran)
}

/// Registers the engine's primitive words in the dictionary, under the current prefix.
pub fn register_primitives(pack: &mut Pack)
    requires
        old(pack).wf(),
    ensures
        final(pack).wf(),
        Pack::same_stack(*old(pack), *final(pack)),
        final(pack).tape() == old(pack).tape(),
        final(pack).ptr() == old(pack).ptr(),
        final(pack).rets() == old(pack).rets(),
        final(pack).lex() == old(pack).lex(),
        final(pack).words() == with_natives(old(pack).words(), old(pack).lex(), core_words()),
{
    let table = core_table();
    pack.def_natives(table.as_slice());
}

impl Pack {
    /// An interpreter with empty stacks, an empty tape and an empty dictionary.
    pub fn bare() -> (r: Pack)
        ensures
            r.wf(),
            r.stack.cells() == Seq::<Cell>::empty(),
            r.stack.base() == 0,
            r.stack.bases() == Seq::<usize>::empty(),
            r.rets() == Seq::<usize>::empty(),
            r.tape() == Seq::<Cell>::empty(),
            r.ptr() == 0,
            r.words() == Map::<Seq<char>, DictEntry>::empty(),
            r.lex() == Seq::<char>::empty(),
    {
        Pack { stack: Stack::new(), dictionary: Dictionary::new(), ret: RetStack::new(), concat: Concat::new() }
    }

    /// An interpreter with the primitives registered and the prelude loaded
    /// on the tape, ready to run.
    pub fn new() -> (r: Pack)
        ensures
            r.wf(),
            r.stack.cells() == Seq::<Cell>::empty(),
            r.stack.base() == 0,
            r.stack.bases() == Seq::<usize>::empty(),
            r.rets() == Seq::<usize>::empty(),
            r.ptr() == 0,
            r.lex() == Seq::<char>::empty(),
            r.words() == with_natives(Map::empty(), Seq::empty(), core_words()),
            views(r.tape()) == tokens(bytes_of(PRELUDE@)),
    {
        let mut pack = Pack::bare();
        register_primitives(&mut pack);
        pack.code(PRELUDE);
        assert(views(Seq::<Cell>::empty()) =~= Seq::<CellView>::empty());
        assert(Seq::<CellView>::empty() + tokens(bytes_of(PRELUDE@)) =~= tokens(bytes_of(PRELUDE@)));
        pack
    }

    /// Defines a batch of native words, in order, under the current prefix.
    pub fn def_natives(&mut self, list: &[(&str, NativeFn)])
        requires
            old(self).wf(),
        ensures
            final(self).wf(),
            Pack::same_stack(*old(self), *final(self)),
            final(self).tape() == old(self).tape(),
            final(self).ptr() == old(self).ptr(),
            final(self).rets() == old(self).rets(),
            final(self).lex() == old(self).lex(),
            final(self).words() == with_natives(old(self).words(), old(self).lex(), list@),
    {
        let mut i: usize = 0;
        while i < list.len()
            invariant
                self.wf(),
                i <= list@.len(),
                Pack::same_stack(*old(self), *self),
                self.tape() == old(self).tape(),
                self.ptr() == old(self).ptr(),
                self.rets() == old(self).rets(),
                self.lex() == old(self).lex(),
                self.words() == with_natives(old(self).words(), old(self).lex(), list@.take(i as int)),
            decreases list@.len() - i,
        {
            let (name, f) = list[i];
            self.dictionary.native(name, f);
            assert(list@.take(i + 1).drop_last() =~= list@.take(i as int));
            i = i + 1;
        }
        assert(list@.take(list@.len() as int) =~= list@);
    }

    /// Tokenizes source text and appends its cells to the end of the tape.
    pub fn append(&mut self, code: &str)
        requires
            old(self).wf(),
        ensures
            final(self).wf(),
            Pack::same_stack(*old(self), *final(self)),
            Pack::same_dict(*old(self), *final(self)),
            final(self).ptr() == old(self).ptr(),
            final(self).rets() == old(self).rets(),
            views(final(self).tape()) == views(old(self).tape()) + tokens(bytes_of(code@)),
    {
        let cells = tokenize(code);
        let mut i: usize = 0;
        while i < cells.len()
            invariant
                self.wf(),
                i <= cells@.len(),
                Pack::same_stack(*old(self), *self),
                Pack::same_dict(*old(self), *self),
                self.ptr() == old(self).ptr(),
                self.rets() == old(self).rets(),
                views(self.tape()) == views(old(self).tape()) + views(cells@.take(i as int)),
            decreases cells@.len() - i,
        {
            let ghost before = self.tape();
            let c = cells[i].clone();
            self.concat.array.push(c);
            assert(self.tape() =~= before.push(cells@[i as int]));
            assert(views(self.tape()) =~= views(before).push(cells@[i as int]@));
            assert(views(cells@.take(i + 1)) =~= views(cells@.take(i as int)).push(cells@[i as int]@));
            assert(views(self.tape()) =~= views(old(self).tape()) + views(cells@.take(i + 1)));
            i = i + 1;
        }
        assert(cells@.take(cells@.len() as int) =~= cells@);
    }

    /// Appends source code to the end of the tape (same as `append`).
    pub fn code(&mut self, code: &str)
        requires
            old(self).wf(),
        ensures
            final(self).wf(),
            Pack::same_stack(*old(self), *final(self)),
            Pack::same_dict(*old(self), *final(self)),
            final(self).ptr() == old(self).ptr(),
            final(self).rets() == old(self).rets(),
            views(final(self).tape()) == views(old(self).tape()) + tokens(bytes_of(code@)),
    {
        self.append(code)
    }

    /// Runs a block as a subroutine: saves the cursor on the return stack,
    /// enters the block, and steps until execution is back at the saved
    /// cursor with the return stack exactly as before, taking at most
    /// `max_steps` steps. `Ok(Step::Ran)`: the block returned.
    /// `Ok(Step::Budget)`: the budget ran out first. Any other result is that
    /// of the step that stopped the run.
    pub fn run_block(&mut self, block: &BlockRef, max_steps: u64) -> (r: Result<Step, Error>)
        requires
            old(self).wf(),
        ensures
            final(self).wf(),
            exists|states: Seq<Pack>, results: Seq<Result<Step, Error>>|
                {
                    &&& entry_post(
                        DictEntry::Defined(*block),
                        *old(self),
                        states[0],
                        Ok::<Step, Error>(Step::Ran),
                    )
                    &&& trace(states[0], *final(self), states, results)
                    &&& results.len() <= max_steps
                    &&& r == Ok::<Step, Error>(Step::Budget) ==> results.len() == max_steps && all_ran(
                        results,
                    )
                    &&& r == Ok::<Step, Error>(Step::Ran) ==> all_ran(results) && final(self).ptr()
                        == old(self).ptr() && final(self).rets() == old(self).rets()
                    &&& r != Ok::<Step, Error>(Step::Ran) && r != Ok::<Step, Error>(Step::Budget)
                        ==> results.len() > 0 && r == results.last()
                },
    {
        let home = self.concat.pointer;
        let saved = self.ret.snapshot();
        let _ = self.exec_dict_entry(DictEntry::Defined(*block));
        let mut i: u64 = 0;
        let ghost entered = *self;
        let ghost mut states: Seq<Pack> = seq![*self];
        let ghost mut results: Seq<Result<Step, Error>> = Seq::empty();
        loop
            invariant
                self.wf(),
                i <= max_steps,
                results.len() == i,
                home == old(self).ptr(),
                saved@ == old(self).rets(),
                entry_post(DictEntry::Defined(*block), *old(self), entered, Ok::<Step, Error>(Step::Ran)),
                states[0] == entered,
                trace(entered, *self, states, results),
                all_ran(results),
            decreases max_steps - i,
        {
            if i == max_steps {
                return Ok(Step::Budget);
            }
            let ghost before = *self;
            let r = self.one_step();
            proof {
                lemma_step_not_budget(before, *self, r);
                let s0 = states;
                let r0 = results;
                states = states.push(*self);
                results = results.push(r);
                assert forall|j: int| 0 <= j < results.len() implies step_post(states[j], states[j + 1], #[trigger] results[j]) by {
                    if j < r0.len() {
                        assert(states[j] == s0[j] && states[j + 1] == s0[j + 1] && results[j] == r0[j]);
                    }
                }
                assert forall|j: int| 0 <= j < results.len() - 1 implies #[trigger] results[j] == Ok::<
                    Step,
                    Error,
                >(Step::Ran) by {
                    assert(results[j] == r0[j]);
                }
                assert(trace(entered, *self, states, results));
            }
            match r {
                Ok(Step::Ran) => {
                    i = i + 1;
                    if self.concat.pointer == home && self.ret.same_as(&saved) {
                        return Ok(Step::Ran);
                    }
                },
                _ => {
                    return r;
                },
            }
        }
    }

    /// Runs at most `max_steps` steps, stopping early at the end of the tape,
    /// at work for the host, or at an error. `Ok(Step::Budget)` means the
    /// budget ran out; any other result is that of the step that stopped the run.
    pub fn run(&mut self, max_steps: u64) -> (r: Result<Step, Error>)
        requires
            old(self).wf(),
        ensures
            final(self).wf(),
            exists|states: Seq<Pack>, results: Seq<Result<Step, Error>>|
                {
                    &&& trace(*old(self), *final(self), states, results)
                    &&& results.len() <= max_steps
                    &&& r == Ok::<Step, Error>(Step::Budget) ==> results.len() == max_steps && all_ran(
                        results,
                    )
                    &&& r != Ok::<Step, Error>(Step::Budget) ==> results.len() > 0 && r == results.last()
                        && r != Ok::<Step, Error>(Step::Ran)
                },
    {
        let mut i: u64 = 0;
        let ghost mut states: Seq<Pack> = seq![*self];
        let ghost mut results: Seq<Result<Step, Error>> = Seq::empty();
        loop
            invariant
                self.wf(),
                i <= max_steps,
                results.len() == i,
                trace(*old(self), *self, states, results),
                all_ran(results),
            decreases max_steps - i,
        {
            if i == max_steps {
                return Ok(Step::Budget);
            }
            let ghost before = *self;
            let r = self.one_step();
            proof {
                lemma_step_not_budget(before, *self, r);
                let s0 = states;
                let r0 = results;
                states = states.push(*self);
                results = results.push(r);
                assert forall|j: int| 0 <= j < results.len() implies step_post(states[j], states[j + 1], #[trigger] results[j]) by {
                    if j < r0.len() {
                        assert(states[j] == s0[j] && states[j + 1] == s0[j + 1] && results[j] == r0[j]);
                    }
                }
                assert forall|j: int| 0 <= j < results.len() - 1 implies #[trigger] results[j] == Ok::<
                    Step,
                    Error,
                >(Step::Ran) by {
                    assert(results[j] == r0[j]);
                }
                assert(trace(*old(self), *self, states, results));
            }
            match r {
                Ok(Step::Ran) => {
                    i = i + 1;
                },
                _ => {
                    return r;
                },
            }
        }
    }
}

} // verus!
