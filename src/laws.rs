use vstd::prelude::*;
use crate::cell::{BlockRef, Cell};
use crate::dictionary::DictEntry;
use crate::engine::{entry_post, exe_post, prim_post};
use crate::error::ErrorKind;
use crate::pack::{failed, Pack, Step};
use crate::primitives::{block_end, close_curly_post, either_post, is_word, open_curly_post, ArithOp, Prim};
use crate::stack::Stack;

verus! {

/// Nested scopes: right after a scope opens nothing below it is visible, so a
/// value pushed there is the only one in reach; closing the scope makes the
/// earlier values visible again, with the pushed value still on top of them.
pub proof fn law_scope_isolation(s0: Stack, s1: Stack, s2: Stack, s3: Stack, x: Cell)
    requires
        s0.wf(),
        Stack::started(&s0, &s1),
        Stack::pushed(&s1, &s2, x),
        Stack::ended(&s2, &s3),
    ensures
        s1.visible() == Seq::<Cell>::empty(),
        s2.visible() == seq![x],
        s3.visible() == s0.visible().push(x),
        s3.base() == s0.base(),
        s3.bases() == s0.bases(),
{
    assert(s1.visible() =~= Seq::<Cell>::empty());
    assert(s2.visible() =~= seq![x]);
    assert(s3.base() == s0.base());
    assert(s3.cells() == s0.cells().push(x));
    assert(s3.visible() =~= s0.visible().push(x));
}

/// The arithmetic operators take their operands from the current scope only:
/// with fewer than two cells in it they report a stack underflow and leave
/// everything, the enclosing scopes included, as it was.
pub proof fn law_underflow_is_reported(p: Pack, q: Pack, op: ArithOp, r: Result<Step, crate::error::Error>)
    requires
        p.wf(),
        p.vis().len() < 2,
        prim_post(Prim::Arith(op), p, q, r),
    ensures
        failed(p, q, r, ErrorKind::StackUnderflow),
{
}

/// `q` was entered from `p`: the cursor of `p` is saved on top of the
/// return stack of `q`.
pub open spec fn entered(p: Pack, q: Pack) -> bool {
    q.rets() == p.rets().push(p.concat.pointer)
}

/// Entering a block saves the cursor: a defined word, `exe` on a block, and
/// `either` all do.
pub proof fn law_entries_save_the_cursor(p: Pack, q: Pack, b: BlockRef)
    ensures
        entry_post(DictEntry::Defined(b), p, q, Ok(Step::Ran)) ==> entered(p, q),
        p.vis().len() > 0 && p.top(0) is Block && exe_post(p, q, Ok(Step::Ran)) ==> entered(p, q),
        either_post(p, q, Ok(Step::Ran)) ==> entered(p, q),
{
}

/// Return-stack balance: after `n` nested block entries, `n` closing `}`
/// all succeed, each resumes at the call site of the entry it closes (the
/// innermost first), and the last one restores the cursor and the return
/// stack of before the first entry.
pub proof fn law_return_balance(states: Seq<Pack>, results: Seq<Result<Step, crate::error::Error>>, n: nat)
    requires
        states.len() == 2 * n + 1,
        results.len() == n,
        forall|i: int| 0 <= i < n ==> entered(#[trigger] states[i], states[i + 1]),
        forall|j: int|
            0 <= j < n ==> close_curly_post(#[trigger] states[n + j], states[n + j + 1], results[j]),
    ensures
        forall|j: int| 0 <= j < n ==> #[trigger] results[j] == Ok::<Step, crate::error::Error>(Step::Ran),
        forall|j: int| 0 <= j < n ==> #[trigger] states[n + j + 1].ptr() == states[n - 1 - j].ptr(),
        states[2 * n as int].ptr() == states[0].ptr(),
        states[2 * n as int].rets() == states[0].rets(),
{
    lemma_entries(states, n, n);
    lemma_exits(states, results, n, n);
    assert forall|j: int| 0 <= j < n implies #[trigger] results[j] == Ok::<Step, crate::error::Error>(
        Step::Ran,
    ) && states[n + j + 1].ptr() == states[n - 1 - j].ptr() by {
        lemma_exits(states, results, n, (j + 1) as nat);
    }
    assert forall|j: int| 0 <= j < n implies #[trigger] states[n + j + 1].ptr() == states[n - 1
        - j].ptr() by {
        lemma_exits(states, results, n, (j + 1) as nat);
    }
    let base = states[0].rets();
    assert(base + Seq::new(0, |k: int| states[k].concat.pointer) =~= base);
}

/// The saved addresses after `i` entries: the ones before, then each entry's cursor.
proof fn lemma_entries(states: Seq<Pack>, n: nat, i: nat)
    requires
        states.len() == 2 * n + 1,
        i <= n,
        forall|k: int| 0 <= k < n ==> entered(#[trigger] states[k], states[k + 1]),
    ensures
        states[i as int].rets() == states[0].rets() + Seq::new(i, |k: int| states[k].concat.pointer),
    decreases i,
{
    if i == 0 {
        assert(states[0].rets() + Seq::new(0, |k: int| states[k].concat.pointer) =~= states[0].rets());
    } else {
        lemma_entries(states, n, (i - 1) as nat);
        assert(entered(states[i - 1], states[i as int]));
        assert(states[0].rets() + Seq::new(i, |k: int| states[k].concat.pointer) =~= (states[0].rets()
            + Seq::new((i - 1) as nat, |k: int| states[k].concat.pointer)).push(
            states[i - 1].concat.pointer,
        ));
    }
}

/// After `j` exits the saved addresses of the `j` innermost entries are
/// gone, every one of those exits succeeded, and the `j`-th one resumed at
/// the cursor of entry `n - j`.
proof fn lemma_exits(states: Seq<Pack>, results: Seq<Result<Step, crate::error::Error>>, n: nat, j: nat)
    requires
        states.len() == 2 * n + 1,
        results.len() == n,
        j <= n,
        forall|k: int| 0 <= k < n ==> entered(#[trigger] states[k], states[k + 1]),
        forall|k: int|
            0 <= k < n ==> close_curly_post(#[trigger] states[n + k], states[n + k + 1], results[k]),
    ensures
        states[(n + j) as int].rets() == states[0].rets() + Seq::new(
            (n - j) as nat,
            |k: int| states[k].concat.pointer,
        ),
        j > 0 ==> states[(n + j) as int].ptr() == states[n - j].ptr(),
        j > 0 ==> results[j - 1] == Ok::<Step, crate::error::Error>(Step::Ran),
    decreases j,
{
    if j == 0 {
        lemma_entries(states, n, n);
    } else {
        lemma_exits(states, results, n, (j - 1) as nat);
        let k = n + j - 1;
        assert(close_curly_post(states[n + (j - 1)], states[n + (j - 1) + 1], results[j - 1]));
        let prev = Seq::new((n - (j - 1)) as nat, |m: int| states[m].concat.pointer);
        assert(states[k].rets() == states[0].rets() + prev);
        assert(states[k].rets().len() > 0);
        assert((states[0].rets() + prev).drop_last() =~= states[0].rets() + Seq::new(
            (n - j) as nat,
            |m: int| states[m].concat.pointer,
        ));
    }
}

/// Arithmetic is strict about types: an integer and a float never combine,
/// in either order, whatever the operator, and nothing is pushed.
pub proof fn law_mixed_arith_is_type_error(p: Pack, q: Pack, op: ArithOp, r: Result<Step, crate::error::Error>)
    requires
        p.wf(),
        p.vis().len() >= 2,
        (p.top(1) is Integer && p.top(0) is Float) || (p.top(1) is Float && p.top(0) is Integer),
        prim_post(Prim::Arith(op), p, q, r),
    ensures
        failed(p, q, r, ErrorKind::TypeMismatch),
{
}

/// A captured block spans exactly up to its matching `}`: the cursor ends
/// just past it, the block starts where the cursor was, and the block's last
/// cell is that `}`.
pub proof fn law_block_capture(p: Pack, q: Pack)
    requires
        p.wf(),
        open_curly_post(p, q, Ok(Step::Ran)),
    ensures
        q.top(0) is Block,
        q.top(0)->Block_0.pos == p.ptr(),
        q.ptr() == p.ptr() + q.top(0)->Block_0.len,
        q.top(0)->Block_0.len >= 1,
        is_word(p.tape()[q.ptr() - 1], "}"@),
{
    let e = block_end(p.tape(), p.ptr(), 1).unwrap();
    lemma_block_end(p.tape(), p.ptr(), 1);
    assert(q.vis() =~= p.vis().push(q.stack.cells().last()));
}

proof fn lemma_block_end(tape: Seq<Cell>, i: int, level: int)
    ensures
        block_end(tape, i, level) matches Some(e) ==> i < e <= tape.len() && is_word(tape[e - 1], "}"@),
    decreases tape.len() - i,
{
    if 0 <= i < tape.len() {
        if is_word(tape[i], "}"@) {
            if level > 1 {
                lemma_block_end(tape, i + 1, level - 1);
            }
        } else if is_word(tape[i], "{"@) {
            lemma_block_end(tape, i + 1, level + 1);
        } else {
            lemma_block_end(tape, i + 1, level);
        }
    }
}

} // verus!
