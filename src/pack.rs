use vstd::prelude::*;
use crate::cell::{Cell, CellView};
use crate::concat::Concat;
use crate::dictionary::{DictEntry, Dictionary};
use crate::error::{Error, ErrorKind};
use crate::primitives::{ArithOp, CmpOp};
use crate::stack::{RetStack, Stack};

verus! {

/// Float work that the host performs on the engine's behalf.
#[derive(Clone, Copy, Debug, PartialEq, Eq, Structural)]
pub enum FloatOp {
    /// Pop two floats `a b` (b on top), push `a op b`.
    Arith(ArithOp),
    /// Pop two floats `a b` (b on top), push the boolean `a op b`.
    Compare(CmpOp),
    /// Pop a float, push it truncated to an integer.
    ToInt,
    /// Pop an integer, push it as a float.
    FromInt,
}

/// Work that only the host can do.
#[derive(Clone, Copy, Debug, PartialEq, Eq, Structural)]
pub enum HostCall {
    /// Run the host native registered under this number.
    Native(u64),
    /// Do float work; the operands are on top of the data stack.
    Float(FloatOp),
}

/// How a step ended.
#[derive(Clone, Copy, Debug, PartialEq, Eq, Structural)]
pub enum Step {
    /// One cell was executed; more may follow.
    Ran,
    /// The cursor is past the end of the tape: nothing is left to run.
    End,
    /// The host must do this before execution goes on.
    Host(HostCall),
    /// The step budget of a run ran out before anything else stopped it.
    Budget,
}

/// The interpreter: data stack, dictionary, return stack and tape.
pub struct Pack {
    pub stack: Stack,
    pub dictionary: Dictionary,
    pub ret: RetStack,
    pub concat: Concat,
}

/// `r` is an error of kind `k`.
pub open spec fn fails<T>(r: Result<T, Error>, k: ErrorKind) -> bool {
    match r {
        Err(e) => e.kind == k,
        Ok(_) => false,
    }
}

/// `r` is an error of kind `k` and the state is as it was.
pub open spec fn failed(p: Pack, q: Pack, r: Result<Step, Error>, k: ErrorKind) -> bool {
    fails(r, k) && Pack::unchanged(p, q)
}

impl Pack {
    pub open spec fn wf(&self) -> bool {
        self.stack.wf()
    }

    /// The cells of the current stack scope, bottom first.
    pub open spec fn vis(&self) -> Seq<Cell> {
        self.stack.visible()
    }

    /// The cell `i` places below the top of the current scope.
    pub open spec fn top(&self, i: int) -> Cell {
        self.vis()[self.vis().len() - 1 - i]
    }

    pub open spec fn ptr(&self) -> int {
        self.concat.pointer as int
    }

    pub open spec fn tape(&self) -> Seq<Cell> {
        self.concat.array@
    }

    pub open spec fn rets(&self) -> Seq<usize> {
        self.ret.addrs()
    }

    pub open spec fn words(&self) -> Map<Seq<char>, DictEntry> {
        self.dictionary.entries()
    }

    pub open spec fn lex(&self) -> Seq<char> {
        self.dictionary.lex@
    }

    /// Same dictionary and prefix.
    pub open spec fn same_dict(a: Pack, b: Pack) -> bool {
        a.words() == b.words() && a.lex() == b.lex()
    }

    /// Same data stack, scopes included.
    pub open spec fn same_stack(a: Pack, b: Pack) -> bool {
        a.stack.cells() == b.stack.cells() && Stack::same_scopes(&a.stack, &b.stack)
    }

    /// Everything but the data stack is the same.
    pub open spec fn only_stack(a: Pack, b: Pack) -> bool {
        &&& Pack::same_dict(a, b)
        &&& a.tape() == b.tape()
        &&& a.ptr() == b.ptr()
        &&& a.rets() == b.rets()
    }

    /// Nothing changed.
    pub open spec fn unchanged(a: Pack, b: Pack) -> bool {
        Pack::only_stack(a, b) && Pack::same_stack(a, b)
    }

    /// Only the cursor and the return stack may differ.
    pub open spec fn only_control(a: Pack, b: Pack) -> bool {
        Pack::same_dict(a, b) && a.tape() == b.tape() && Pack::same_stack(a, b)
    }

    /// `b`'s stack is `a`'s with the top `n` cells replaced by one cell whose view is `c`.
    pub open spec fn replaced(a: Pack, b: Pack, n: int, c: CellView) -> bool {
        let len = a.stack.cells().len();
        &&& Stack::same_scopes(&a.stack, &b.stack)
        &&& 0 <= n <= a.vis().len()
        &&& b.stack.cells().len() == len - n + 1
        &&& b.stack.cells().take(len - n) == a.stack.cells().take(len - n)
        &&& b.stack.cells().last()@ == c
    }

    /// `b`'s stack is `a`'s with the top `n` cells removed.
    pub open spec fn dropped(a: Pack, b: Pack, n: int) -> bool {
        Stack::dropped(&a.stack, &b.stack, n)
    }

    /// `b`'s stack is `a`'s with `c` pushed.
    pub open spec fn pushed(a: Pack, b: Pack, c: Cell) -> bool {
        Stack::pushed(&a.stack, &b.stack, c)
    }

    pub proof fn lemma_dropped_more(a: Pack, b: Pack, c: Pack, n: int)
        requires
            a.wf(),
            Pack::dropped(a, b, n),
            Stack::dropped(&b.stack, &c.stack, 1),
        ensures
            Pack::dropped(a, c, n + 1),
    {
        assert(c.stack.cells() =~= a.stack.cells().subrange(0, a.stack.cells().len() - (n + 1)));
    }

    /// Pops `n` cells off the current scope and pushes `c`.
    pub(crate) fn replace_top(&mut self, n: usize, c: Cell)
        requires
            old(self).wf(),
            n <= old(self).vis().len(),
        ensures
            final(self).wf(),
            Pack::only_stack(*old(self), *final(self)),
            Pack::replaced(*old(self), *final(self), n as int, c@),
            final(self).stack.cells() == old(self).stack.cells().take(
                old(self).stack.cells().len() - n,
            ).push(c),
    {
        self.drop_top(n);
        self.stack.push(c);
        let ghost len = old(self).stack.cells().len();
        assert(self.stack.cells().take(len - n) =~= old(self).stack.cells().take(len - n));
    }

    /// Pops `n` cells off the current scope.
    pub(crate) fn drop_top(&mut self, n: usize)
        requires
            old(self).wf(),
            n <= old(self).vis().len(),
        ensures
            final(self).wf(),
            Pack::only_stack(*old(self), *final(self)),
            Pack::dropped(*old(self), *final(self), n as int),
            final(self).vis() == old(self).vis().take(old(self).vis().len() - n),
    {
        let mut i: usize = 0;
        assert(self.stack.cells() =~= old(self).stack.cells().subrange(0, old(self).stack.cells().len() - 0));
        assert(self.vis() =~= old(self).vis().take(old(self).vis().len() - 0));
        while i < n
            invariant
                self.wf(),
                old(self).wf(),
                i <= n,
                n <= old(self).vis().len(),
                Pack::only_stack(*old(self), *self),
                Pack::dropped(*old(self), *self, i as int),
                self.vis() == old(self).vis().take(old(self).vis().len() - i),
            decreases n - i,
        {
            let ghost before = *self;
            assert(before.vis().len() > 0);
            assert(Stack::dropped(&old(self).stack, &before.stack, i as int));
            assert(before.stack.cells() == old(self).stack.cells().subrange(0, old(self).stack.cells().len() - i));
            let _ = self.stack.pop();
            proof {
                assert(self.stack.cells() == before.stack.cells().subrange(0, before.stack.cells().len() - 1));
                assert(self.stack.cells() =~= old(self).stack.cells().subrange(
                    0,
                    old(self).stack.cells().len() - (i + 1),
                ));
                assert(self.vis() =~= old(self).vis().take(old(self).vis().len() - (i + 1)));
            }
            i = i + 1;
        }
    }
}

} // verus!
