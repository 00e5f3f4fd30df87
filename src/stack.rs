use vstd::prelude::*;
use crate::cell::Cell;

verus! {

/// The data stack: one physical sequence of cells, viewed through nested scopes.
///
/// `base` marks where the current scope starts; `nested` holds the bases of the
/// enclosing scopes, innermost last. Pops and reads never go below `base`.
#[derive(Debug)]
pub struct Stack {
    stack: Vec<Cell>,
    base: usize,
    nested: Vec<usize>,
}

impl Stack {
    /// Every cell on the stack, bottom first, whatever scope it belongs to.
    pub closed spec fn cells(&self) -> Seq<Cell> {
        self.stack@
    }

    /// Start of the current scope within `cells()`.
    pub closed spec fn base(&self) -> int {
        self.base as int
    }

    /// Bases of the enclosing scopes, outermost first.
    pub closed spec fn bases(&self) -> Seq<usize> {
        self.nested@
    }

    /// The cells of the current scope, bottom first.
    pub open spec fn visible(&self) -> Seq<Cell> {
        self.cells().subrange(self.base(), self.cells().len() as int)
    }

    /// The cell `pos` places below the top of the current scope.
    pub open spec fn peek(&self, pos: int) -> Cell {
        self.visible()[self.visible().len() - 1 - pos]
    }

    /// Scopes nest: each saved base is at most the one saved after it, and the
    /// innermost saved base is at most the current one, which lies within the stack.
    pub open spec fn wf(&self) -> bool {
        &&& 0 <= self.base() <= self.cells().len()
        &&& self.base() <= usize::MAX
        &&& forall|i: int|
            0 <= i < self.bases().len() ==> #[trigger] self.bases()[i] <= (if i + 1 < self.bases().len() {
                self.bases()[i + 1] as int
            } else {
                self.base()
            })
    }

    /// Same scopes: the bases of `a` and `b` agree.
    pub open spec fn same_scopes(a: &Stack, b: &Stack) -> bool {
        a.base() == b.base() && a.bases() == b.bases()
    }

    /// `after` is `before` with `c` pushed on top.
    pub open spec fn pushed(before: &Stack, after: &Stack, c: Cell) -> bool {
        Stack::same_scopes(before, after) && after.cells() == before.cells().push(c)
    }

    /// `after` is `before` with its top `n` cells removed (all within the current scope).
    pub open spec fn dropped(before: &Stack, after: &Stack, n: int) -> bool {
        &&& Stack::same_scopes(before, after)
        &&& n <= before.visible().len()
        &&& 0 <= n <= before.cells().len()
        &&& after.cells() == before.cells().subrange(0, before.cells().len() - n)
    }

    /// Well-formedness depends only on the scopes and the number of cells.
    pub proof fn lemma_wf_frame(a: &Stack, b: &Stack)
        requires
            a.wf(),
            Stack::same_scopes(a, b),
            b.base() <= b.cells().len(),
        ensures
            b.wf(),
    {
        assert forall|i: int| 0 <= i < b.bases().len() implies #[trigger] b.bases()[i] <= (if i + 1
            < b.bases().len() {
            b.bases()[i + 1] as int
        } else {
            b.base()
        }) by {
            assert(a.bases()[i] <= (if i + 1 < a.bases().len() {
                a.bases()[i + 1] as int
            } else {
                a.base()
            }));
        }
    }

    /// `after` is `before` with a new scope opened on top of it.
    pub open spec fn started(before: &Stack, after: &Stack) -> bool {
        &&& after.cells() == before.cells()
        &&& after.bases() == before.bases().push(before.base() as usize)
        &&& after.base() == before.cells().len()
    }

    /// `after` is `before` with its current scope closed.
    pub open spec fn ended(before: &Stack, after: &Stack) -> bool {
        &&& before.bases().len() > 0
        &&& after.cells() == before.cells()
        &&& after.base() == before.bases().last()
        &&& after.bases() == before.bases().drop_last()
    }

    /// An empty stack with no enclosing scope.
    pub fn new() -> (r: Stack)
        ensures
            r.wf(),
            r.cells() == Seq::<Cell>::empty(),
            r.base() == 0,
            r.bases() == Seq::<usize>::empty(),
    {
        Stack { stack: Vec::new(), base: 0, nested: Vec::new() }
    }

    /// Starts a new nested scope: from now on only cells pushed after this call are visible.
    pub fn start_stack(&mut self)
        requires
            old(self).wf(),
        ensures
            final(self).wf(),
            Stack::started(old(self), final(self)),
            final(self).visible() == Seq::<Cell>::empty(),
    {
        self.nested.push(self.base);
        self.base = self.stack.len();
        proof {
            let s = *self;
            assert forall|i: int| 0 <= i < s.bases().len() implies #[trigger] s.bases()[i] <= (if i
                + 1 < s.bases().len() {
                s.bases()[i + 1] as int
            } else {
                s.base()
            }) by {
                if i + 1 < s.bases().len() {
                    assert(old(self).bases()[i] <= (if i + 1 < old(self).bases().len() {
                        old(self).bases()[i + 1] as int
                    } else {
                        old(self).base()
                    }));
                }
            }
        }
    }

    /// Ends the current scope and makes the enclosing one current again;
    /// returns the restored base, or `None` when no scope is open.
    pub fn end_stack(&mut self) -> (r: Option<usize>)
        requires
            old(self).wf(),
        ensures
            final(self).wf(),
            final(self).cells() == old(self).cells(),
            old(self).bases().len() == 0 ==> r is None && *final(self) == *old(self),
            old(self).bases().len() > 0 ==> r == Some(old(self).bases().last()) && Stack::ended(
                old(self),
                final(self),
            ),
    {
        if self.nested.len() == 0 {
            return None;
        }
        match self.nested.pop() {
            Some(base) => {
                self.base = base;
                proof {
                    let s = *self;
                    let o = *old(self);
                    assert(o.bases()[o.bases().len() - 1] <= o.base());
                    assert forall|i: int| 0 <= i < s.bases().len() implies #[trigger] s.bases()[i]
                        <= (if i + 1 < s.bases().len() {
                        s.bases()[i + 1] as int
                    } else {
                        s.base()
                    }) by {
                        assert(o.bases()[i] <= (if i + 1 < o.bases().len() {
                            o.bases()[i + 1] as int
                        } else {
                            o.base()
                        }));
                    }
                }
                Some(base)
            },
            None => None,
        }
    }

    /// Pushes a cell on top of the current scope.
    pub fn push(&mut self, cell: Cell)
        requires
            old(self).wf(),
        ensures
            final(self).wf(),
            Stack::pushed(old(self), final(self), cell),
            final(self).visible() == old(self).visible().push(cell),
    {
        self.stack.push(cell);
        assert(self.visible() =~= old(self).visible().push(cell));
        proof {
            Stack::lemma_wf_frame(old(self), self);
        }
    }

    /// Pops the top cell of the current scope; `None` when the scope is empty.
    pub fn pop(&mut self) -> (r: Option<Cell>)
        requires
            old(self).wf(),
        ensures
            final(self).wf(),
            old(self).visible().len() == 0 ==> r is None && *final(self) == *old(self),
            old(self).visible().len() > 0 ==> {
                &&& r == Some(old(self).visible().last())
                &&& Stack::dropped(old(self), final(self), 1)
                &&& final(self).visible() == old(self).visible().drop_last()
            },
    {
        if self.stack.len() > self.base {
            let r = self.stack.pop();
            assert(self.visible() =~= old(self).visible().drop_last());
            assert(self.cells() =~= old(self).cells().subrange(0, old(self).cells().len() - 1));
            proof {
                Stack::lemma_wf_frame(old(self), self);
            }
            r
        } else {
            None
        }
    }

    /// The cell `pos` places below the top of the current scope.
    pub fn get(&self, pos: usize) -> (r: Option<&Cell>)
        requires
            self.wf(),
        ensures
            pos < self.visible().len() ==> r == Some(&self.peek(pos as int)),
            pos >= self.visible().len() ==> r is None,
    {
        if pos < self.size() {
            Some(&self.stack[self.stack.len() - 1 - pos])
        } else {
            None
        }
    }

    /// Mutable access to the cell `pos` places below the top of the current scope.
    pub fn get_mut(&mut self, pos: usize) -> (r: Option<&mut Cell>)
        requires
            old(self).wf(),
        ensures
            pos >= old(self).visible().len() ==> r is None && *final(self) == *old(self),
            pos < old(self).visible().len() ==> {
                &&& r is Some
                &&& *r->Some_0 == old(self).peek(pos as int)
                &&& Stack::same_scopes(old(self), final(self))
                &&& final(self).cells() == old(self).cells().update(
                    old(self).cells().len() - 1 - pos,
                    *final(r->Some_0),
                )
            },
    {
        if pos < self.size() {
            let len = self.stack.len();
            assert(self.peek(pos as int) == self.stack@[len - 1 - pos]);
            Some(&mut self.stack[len - 1 - pos])
        } else {
            None
        }
    }

    /// Number of cells in the current scope.
    pub fn size(&self) -> (r: usize)
        requires
            self.wf(),
        ensures
            r == self.visible().len(),
    {
        self.stack.len() - self.base
    }

    /// Removes every cell of the current scope.
    pub fn clear(&mut self)
        requires
            old(self).wf(),
        ensures
            final(self).wf(),
            Stack::dropped(old(self), final(self), old(self).visible().len() as int),
            final(self).visible() == Seq::<Cell>::empty(),
    {
        self.stack.truncate(self.base);
        assert(self.cells() =~= old(self).cells().subrange(0, old(self).base()));
        assert(self.visible() =~= Seq::<Cell>::empty());
        proof {
            Stack::lemma_wf_frame(old(self), self);
        }
    }
}

/// The return stack: tape addresses at which execution resumes.
#[derive(Debug)]
pub struct RetStack {
    stack: Vec<usize>,
}

impl RetStack {
    /// The saved addresses, oldest first.
    pub closed spec fn addrs(&self) -> Seq<usize> {
        self.stack@
    }

    /// An empty return stack.
    pub fn new() -> (r: RetStack)
        ensures
            r.addrs() == Seq::<usize>::empty(),
    {
        RetStack { stack: Vec::new() }
    }

    /// Saves an address.
    pub fn push(&mut self, ret_pos: usize)
        ensures
            final(self).addrs() == old(self).addrs().push(ret_pos),
    {
        self.stack.push(ret_pos)
    }

    /// Takes the most recently saved address; `None` when there is none.
    pub fn pop(&mut self) -> (r: Option<usize>)
        ensures
            old(self).addrs().len() == 0 ==> r is None && final(self).addrs() == old(self).addrs(),
            old(self).addrs().len() > 0 ==> r == Some(old(self).addrs().last())
                && final(self).addrs() == old(self).addrs().drop_last(),
    {
        self.stack.pop()
    }

    /// Discards the `n` most recent addresses, or all of them when there are fewer.
    pub fn discard(&mut self, n: usize)
        ensures
            n >= old(self).addrs().len() ==> final(self).addrs() == Seq::<usize>::empty(),
            n < old(self).addrs().len() ==> final(self).addrs() == old(self).addrs().take(
                old(self).addrs().len() - n,
            ),
    {
        if n >= self.stack.len() {
            self.stack.clear();
        } else {
            let keep = self.stack.len() - n;
            self.stack.truncate(keep);
        }
        assert(n < old(self).addrs().len() ==> self.addrs() =~= old(self).addrs().take(
            old(self).addrs().len() - n,
        ));
        assert(n >= old(self).addrs().len() ==> self.addrs() =~= Seq::<usize>::empty());
    }

    /// Whether the saved addresses are exactly those of `v`, oldest first.
    pub fn same_as(&self, v: &Vec<usize>) -> (r: bool)
        ensures
            r == (self.addrs() == v@),
    {
        if self.stack.len() != v.len() {
            return false;
        }
        let mut i: usize = 0;
        while i < v.len()
            invariant
                self.stack@.len() == v@.len(),
                i <= v@.len(),
                forall|j: int| 0 <= j < i ==> self.stack@[j] == v@[j],
            decreases v@.len() - i,
        {
            if self.stack[i] != v[i] {
                return false;
            }
            i = i + 1;
        }
        assert(self.stack@ =~= v@);
        true
    }

    /// A copy of the saved addresses, oldest first.
    pub fn snapshot(&self) -> (r: Vec<usize>)
        ensures
            r@ == self.addrs(),
    {
        let mut r: Vec<usize> = Vec::new();
        let mut i: usize = 0;
        while i < self.stack.len()
            invariant
                i <= self.stack@.len(),
                r@ == self.stack@.take(i as int),
            decreases self.stack@.len() - i,
        {
            r.push(self.stack[i]);
            assert(self.stack@.take(i + 1) =~= self.stack@.take(i as int).push(self.stack@[i as int]));
            i = i + 1;
        }
        assert(self.stack@.take(i as int) =~= self.stack@);
        r
    }

    /// Number of saved addresses.
    pub fn size(&self) -> (r: usize)
        ensures
            r == self.addrs().len(),
    {
        self.stack.len()
    }
}

} // verus!
