use std::sync::mpsc;
use vstd::prelude::*;

use crate::matrix::{
    checked_dot, col_of, col_vec, dot, dot_fits, is_product, lemma_cell_index, product_cell,
    row_of, row_vec, Matrix, MultiplyError,
};

verus! {

/// One unit of work: the cell at flat index `idx` of a product, with copies
/// of the row and the column whose dot product it is.
pub struct MsgInput {
    pub idx: usize,
    pub row: Vec<i64>,
    pub col: Vec<i64>,
}

/// A worker's answer: the value of the cell at flat index `idx`.
pub struct MsgOutput {
    pub idx: usize,
    pub data: i64,
}

/// A task on its way to a worker, with the sending half of the single-use
/// channel on which the answer comes back.
pub struct Msg {
    pub input: MsgInput,
    pub sender: oneshot::Sender<MsgOutput>,
}

#[verifier::external_type_specification]
#[verifier::external_body]
#[verifier::reject_recursive_types(T)]
pub struct ExOneshotSender<T>(oneshot::Sender<T>);

#[verifier::external_type_specification]
#[verifier::external_body]
#[verifier::reject_recursive_types(T)]
pub struct ExOneshotReceiver<T>(oneshot::Receiver<T>);

#[verifier::external_type_specification]
#[verifier::external_body]
#[verifier::reject_recursive_types(T)]
pub struct ExQueueSender<T>(mpsc::Sender<T>);

impl MsgInput {
    pub fn new(idx: usize, row: Vec<i64>, col: Vec<i64>) -> (r: MsgInput)
        ensures
            r.idx == idx,
            r.row@ == row@,
            r.col@ == col@,
    {
        MsgInput { idx, row, col }
    }
}

impl MsgOutput {
    pub fn new(idx: usize, data: i64) -> (r: MsgOutput)
        ensures
            r.idx == idx,
            r.data == data,
    {
        MsgOutput { idx, data }
    }
}

/// Whether `t` is the task for the cell at flat index `k` of `a * b`.
pub open spec fn task_for(a: Matrix, b: Matrix, k: int, t: MsgInput) -> bool {
    &&& t.idx == k
    &&& t.row@ == row_of(a, k / b.col as int)
    &&& t.col@ == col_of(b, k % b.col as int)
}

/// Whether `o` is the correct answer to task `t`.
pub open spec fn answers(t: MsgInput, o: MsgOutput) -> bool {
    o.idx == t.idx && o.data == dot(t.row@, t.col@)
}

/// Whether `replies` holds exactly one reply per cell of a matrix with `n`
/// cells, the reply for cell `k` at position `k`.
pub open spec fn replies_in_order(replies: Seq<MsgOutput>, n: int) -> bool {
    &&& replies.len() == n
    &&& forall|k: int| 0 <= k < replies.len() ==> (#[trigger] replies[k]).idx == k
}

/// Whether `m` is the `rows` by `cols` matrix whose cells are the values of
/// `replies`, in order.
pub open spec fn assembled(replies: Seq<MsgOutput>, rows: int, cols: int, m: Matrix) -> bool {
    &&& m.row == rows
    &&& m.col == cols
    &&& m.wf()
    &&& m.data@.len() == replies.len()
    &&& forall|k: int| 0 <= k < replies.len() ==> #[trigger] m.data@[k] == replies[k].data
}

/// The tasks of `a * b`, one per output cell, in row-major order: the task
/// at position `k` is for the cell at flat index `k`.
pub fn plan_tasks(a: &Matrix, b: &Matrix) -> (r: Result<Vec<MsgInput>, MultiplyError>)
    requires
        a.wf(),
        b.wf(),
    ensures
        r is Err <==> a.col != b.row,
        r is Err ==> r == Err::<Vec<MsgInput>, MultiplyError>(MultiplyError::DimensionMismatch),
        r matches Ok(ts) ==> {
            &&& ts@.len() == a.row * b.col
            &&& forall|k: int| 0 <= k < ts@.len() ==> #[trigger] task_for(*a, *b, k, ts@[k])
        },
{
    if a.col != b.row {
        return Err(MultiplyError::DimensionMismatch);
    }
    let mut tasks: Vec<MsgInput> = Vec::new();
    let mut i: usize = 0;
    while i < a.row
        invariant
            a.wf(),
            b.wf(),
            a.col == b.row,
            i <= a.row,
            tasks@.len() == i * b.col,
            forall|k: int| 0 <= k < tasks@.len() ==> #[trigger] task_for(*a, *b, k, tasks@[k]),
        decreases a.row - i,
    {
        let mut j: usize = 0;
        while j < b.col
            invariant
                a.wf(),
                b.wf(),
                a.col == b.row,
                i < a.row,
                j <= b.col,
                tasks@.len() == i * b.col + j,
                forall|k: int| 0 <= k < tasks@.len() ==> #[trigger] task_for(*a, *b, k, tasks@[k]),
            decreases b.col - j,
        {
            proof {
                lemma_cell_index(i as int, j as int, a.row as int, b.col as int);
            }
            let idx = tasks.len();
            let task = MsgInput::new(idx, row_vec(a, i), col_vec(b, j));
            tasks.push(task);
            j = j + 1;
        }
        proof {
            assert((i + 1) * b.col == i * b.col + b.col) by (nonlinear_arith);
        }
        i = i + 1;
    }
    Ok(tasks)
}

/// The worker that the task for cell `idx` goes to: tasks are dealt out
/// round-robin by cell index.
pub fn assign_worker(idx: usize, worker_count: usize) -> (r: usize)
    requires
        worker_count > 0,
    ensures
        r == idx % worker_count,
        r < worker_count,
{
    idx % worker_count
}

/// The answer to a task. A task whose row and column differ in length is a
/// `DimensionMismatch`; one whose value does not fit in `i64` cannot be
/// answered, which the collector sees as a `WorkerFailure`.
pub fn answer(task: MsgInput) -> (r: Result<MsgOutput, MultiplyError>)
    ensures
        task.row@.len() != task.col@.len() ==> r == Err::<MsgOutput, MultiplyError>(
            MultiplyError::DimensionMismatch,
        ),
        task.row@.len() == task.col@.len() && !dot_fits(task.row@, task.col@) ==> r == Err::<
            MsgOutput,
            MultiplyError,
        >(MultiplyError::WorkerFailure),
        r is Ok <==> task.row@.len() == task.col@.len() && dot_fits(task.row@, task.col@),
        r matches Ok(o) ==> answers(task, o),
{
    if task.row.len() != task.col.len() {
        return Err(MultiplyError::DimensionMismatch);
    }
    match checked_dot(&task.row, &task.col) {
        Some(v) => Ok(MsgOutput::new(task.idx, v)),
        None => Err(MultiplyError::WorkerFailure),
    }
}

/// Relies on oneshot::channel: a fresh pair of connected single-use
/// endpoints.
#[verifier::external_body]
fn reply_channel() -> (oneshot::Sender<MsgOutput>, oneshot::Receiver<MsgOutput>) {
    oneshot::channel()
}

/// Relies on oneshot::Sender::send: hands the reply to the receiving half,
/// `false` when that half is already gone.
#[verifier::external_body]
fn deliver(tx: oneshot::Sender<MsgOutput>, out: MsgOutput) -> bool {
    tx.send(out).is_ok()
}

/// Relies on oneshot::Receiver::recv: blocks until the reply arrives, `None`
/// when the sending half was dropped without sending. The crate is built
/// without its `async` feature, so a receiver is never a future and recv has
/// no panicking path.
#[verifier::external_body]
fn await_reply(rx: oneshot::Receiver<MsgOutput>) -> Option<MsgOutput> {
    rx.recv().ok()
}

/// Relies on std::sync::mpsc::Sender::send: queues the message for the
/// worker, `false` when the worker's end of the queue is gone.
#[verifier::external_body]
fn enqueue(queue: &mpsc::Sender<Msg>, msg: Msg) -> bool {
    queue.send(msg).is_ok()
}

/// What a worker does with one message: computes the answer and sends it
/// back. When there is no answer the reply channel is dropped unanswered, so
/// that the collector reports the failure; a reply whose receiver is gone is
/// dropped, as nobody waits for it.
pub fn serve(msg: Msg) -> (r: Result<(), MultiplyError>)
    ensures
        r is Ok <==> msg.input.row@.len() == msg.input.col@.len() && dot_fits(
            msg.input.row@,
            msg.input.col@,
        ),
        msg.input.row@.len() != msg.input.col@.len() ==> r == Err::<(), MultiplyError>(
            MultiplyError::DimensionMismatch,
        ),
        msg.input.row@.len() == msg.input.col@.len() && !dot_fits(msg.input.row@, msg.input.col@)
            ==> r == Err::<(), MultiplyError>(MultiplyError::WorkerFailure),
{
    let Msg { input, sender } = msg;
    match answer(input) {
        Ok(out) => {
            let _ = deliver(sender, out);
            Ok(())
        },
        Err(e) => Err(e),
    }
}

/// The elements of `v` in reverse order.
fn reversed<T>(v: Vec<T>) -> (r: Vec<T>)
    ensures
        r@.len() == v@.len(),
        forall|t: int| 0 <= t < v@.len() ==> #[trigger] r@[t] == v@[v@.len() - 1 - t],
{
    let mut v = v;
    let ghost orig = v@;
    let mut r: Vec<T> = Vec::new();
    while v.len() > 0
        invariant
            v@.len() + r@.len() == orig.len(),
            forall|t: int| 0 <= t < v@.len() ==> #[trigger] v@[t] == orig[t],
            forall|t: int| 0 <= t < r@.len() ==> #[trigger] r@[t] == orig[orig.len() - 1 - t],
        decreases v@.len(),
    {
        let x = v.pop().unwrap();
        r.push(x);
    }
    r
}

/// Hands task `k` to queue `assign_worker(k, queues.len())`, in task
/// order, each with a fresh reply channel, and returns the receiving halves
/// in task order, each paired with its task's `idx`. The queues are consumed:
/// once this returns, every worker's queue closes when drained. If a queue is
/// already closed the whole dispatch fails with `DispatchFailure`. The
/// contract states the pairing and the order; what each send does is
/// outside it.
pub fn dispatch(tasks: Vec<MsgInput>, queues: Vec<mpsc::Sender<Msg>>) -> (r: Result<
    Vec<(usize, oneshot::Receiver<MsgOutput>)>,
    MultiplyError,
>)
    requires
        queues@.len() > 0,
    ensures
        tasks@.len() == 0 ==> r is Ok,
        r matches Ok(rs) ==> {
            &&& rs@.len() == tasks@.len()
            &&& forall|k: int| 0 <= k < rs@.len() ==> (#[trigger] rs@[k]).0 == tasks@[k].idx
        },
        r is Err ==> r == Err::<Vec<(usize, oneshot::Receiver<MsgOutput>)>, MultiplyError>(
            MultiplyError::DispatchFailure,
        ),
{
    let ghost all = tasks@;
    let n = tasks.len();
    let mut pending = reversed(tasks);
    let mut receivers: Vec<(usize, oneshot::Receiver<MsgOutput>)> = Vec::new();
    let mut k: usize = 0;
    while k < n
        invariant
            queues@.len() > 0,
            all == tasks@,
            n == all.len(),
            k <= n,
            pending@.len() == n - k,
            forall|t: int| 0 <= t < n - k ==> #[trigger] pending@[t] == all[n - 1 - t],
            receivers@.len() == k,
            forall|t: int| 0 <= t < k ==> (#[trigger] receivers@[t]).0 == all[t].idx,
        decreases n - k,
    {
        let task = pending.pop().unwrap();
        assert(task == all[k as int]);
        let idx = task.idx;
        let (tx, rx) = reply_channel();
        let w = assign_worker(k, queues.len());
        if !enqueue(&queues[w], Msg { input: task, sender: tx }) {
            return Err(MultiplyError::DispatchFailure);
        }
        receivers.push((idx, rx));
        k = k + 1;
    }
    Ok(receivers)
}

/// Waits on each receiver in turn, in the order given, and returns the
/// replies in that order. A receiver whose sender was dropped unanswered, or
/// a reply for another cell than the one its receiver was paired with, fails
/// the whole collection with `WorkerFailure`.
pub fn collect(receivers: Vec<(usize, oneshot::Receiver<MsgOutput>)>) -> (r: Result<
    Vec<MsgOutput>,
    MultiplyError,
>)
    ensures
        receivers@.len() == 0 ==> (r matches Ok(v) && v@.len() == 0),
        r matches Ok(v) ==> {
            &&& v@.len() == receivers@.len()
            &&& forall|k: int| 0 <= k < v@.len() ==> (#[trigger] v@[k]).idx == receivers@[k].0
        },
        r is Err ==> r == Err::<Vec<MsgOutput>, MultiplyError>(MultiplyError::WorkerFailure),
{
    let ghost all = receivers@;
    let n = receivers.len();
    let mut pending = reversed(receivers);
    let mut replies: Vec<MsgOutput> = Vec::new();
    let mut k: usize = 0;
    while k < n
        invariant
            all == receivers@,
            n == all.len(),
            k <= n,
            pending@.len() == n - k,
            forall|t: int| 0 <= t < n - k ==> #[trigger] pending@[t] == all[n - 1 - t],
            replies@.len() == k,
            forall|t: int| 0 <= t < k ==> (#[trigger] replies@[t]).idx == all[t].0,
        decreases n - k,
    {
        let (idx, rx) = pending.pop().unwrap();
        assert(idx == all[k as int].0);
        match await_reply(rx) {
            Some(out) => {
                if out.idx != idx {
                    return Err(MultiplyError::WorkerFailure);
                }
                replies.push(out);
            },
            None => return Err(MultiplyError::WorkerFailure),
        }
        k = k + 1;
    }
    Ok(replies)
}

/// The `row` by `col` matrix whose cells are the values of the replies, in
/// order. Missing, extra or misplaced replies are a `WorkerFailure`: no
/// partial matrix is ever returned.
pub fn assemble(replies: Vec<MsgOutput>, row: usize, col: usize) -> (r: Result<
    Matrix,
    MultiplyError,
>)
    ensures
        r is Ok <==> replies_in_order(replies@, row * col),
        r is Err ==> r == Err::<Matrix, MultiplyError>(MultiplyError::WorkerFailure),
        r matches Ok(m) ==> assembled(replies@, row as int, col as int, m),
{
    let len = replies.len();
    let n = match row.checked_mul(col) {
        Some(n) => n,
        None => return Err(MultiplyError::WorkerFailure),
    };
    if len != n {
        return Err(MultiplyError::WorkerFailure);
    }
    let mut data: Vec<i64> = Vec::new();
    let mut k: usize = 0;
    while k < n
        invariant
            n == row * col,
            replies@.len() == n,
            k <= n,
            data@.len() == k,
            forall|t: int| 0 <= t < k ==> (#[trigger] replies@[t]).idx == t,
            forall|t: int| 0 <= t < k ==> #[trigger] data@[t] == replies@[t].data,
        decreases n - k,
    {
        if replies[k].idx != k {
            return Err(MultiplyError::WorkerFailure);
        }
        data.push(replies[k].data);
        k = k + 1;
    }
    Ok(Matrix { data, row, col })
}

/// The product `a * b`, each cell computed by the workers that drain
/// `queues`: the tasks are planned, dispatched round-robin, and their replies
/// collected in order and assembled. `DimensionMismatch` comes exactly when
/// the dimensions do not match; otherwise the only failures are a closed
/// queue (`DispatchFailure`) and a reply that never came (`WorkerFailure`).
/// A product without cells needs no worker and always succeeds.
pub fn multiply_on_workers(a: &Matrix, b: &Matrix, queues: Vec<mpsc::Sender<Msg>>) -> (r: Result<
    Matrix,
    MultiplyError,
>)
    requires
        a.wf(),
        b.wf(),
        queues@.len() > 0,
    ensures
        (r == Err::<Matrix, MultiplyError>(MultiplyError::DimensionMismatch)) <==> a.col != b.row,
        r is Err ==> r == Err::<Matrix, MultiplyError>(MultiplyError::DimensionMismatch) || r
            == Err::<Matrix, MultiplyError>(MultiplyError::DispatchFailure) || r == Err::<
            Matrix,
            MultiplyError,
        >(MultiplyError::WorkerFailure),
        a.col == b.row && a.row * b.col == 0 ==> r is Ok,
        r matches Ok(m) ==> m.row == a.row && m.col == b.col && m.wf(),
{
    let tasks = match plan_tasks(a, b) {
        Ok(tasks) => tasks,
        Err(e) => return Err(e),
    };
    let ghost planned = tasks@;
    let receivers = match dispatch(tasks, queues) {
        Ok(receivers) => receivers,
        Err(e) => return Err(e),
    };
    let replies = match collect(receivers) {
        Ok(replies) => replies,
        Err(e) => return Err(e),
    };
    proof {
        assert forall|k: int| 0 <= k < replies@.len() implies (#[trigger] replies@[k]).idx == k by {
            assert(task_for(*a, *b, k, planned[k]));
        }
    }
    assemble(replies, a.row, b.col)
}

/// Answering every planned task of `a * b` and assembling the replies in
/// dispatch order gives what the sequential multiply gives: the replies are
/// in order, so the assembly succeeds, and its result has the dimensions and
/// the cells of the sequential product.
pub proof fn lemma_pool_matches_sequential(
    a: Matrix,
    b: Matrix,
    tasks: Seq<MsgInput>,
    replies: Seq<MsgOutput>,
    sequential: Matrix,
)
    requires
        a.wf(),
        b.wf(),
        a.col == b.row,
        tasks.len() == a.row * b.col,
        forall|k: int| 0 <= k < tasks.len() ==> #[trigger] task_for(a, b, k, tasks[k]),
        replies.len() == tasks.len(),
        forall|k: int| 0 <= k < tasks.len() ==> #[trigger] answers(tasks[k], replies[k]),
        is_product(sequential, a, b),
    ensures
        replies_in_order(replies, a.row * b.col),
        forall|m: Matrix|
            #[trigger] assembled(replies, a.row as int, b.col as int, m) ==> {
                &&& m.row == sequential.row
                &&& m.col == sequential.col
                &&& m.data@ == sequential.data@
            },
{
    assert forall|k: int| 0 <= k < replies.len() implies (#[trigger] replies[k]).idx == k by {
        assert(task_for(a, b, k, tasks[k]));
        assert(answers(tasks[k], replies[k]));
    }
    assert forall|m: Matrix| #[trigger] assembled(replies, a.row as int, b.col as int, m) implies {
        &&& m.row == sequential.row
        &&& m.col == sequential.col
        &&& m.data@ == sequential.data@
    } by {
        assert forall|k: int| 0 <= k < m.data@.len() implies m.data@[k] == sequential.data@[k] by {
            assert(task_for(a, b, k, tasks[k]));
            assert(answers(tasks[k], replies[k]));
            assert(sequential.data@[k] == product_cell(a, b, k));
        }
        assert(m.data@ =~= sequential.data@);
    }
}

/// The result does not depend on the size of the worker pool: the plan is
/// made without it, and each reply is determined by its task alone,
/// whichever worker computed it. So any two runs that answer the planned
/// tasks of `a * b` assemble the same matrix.
pub proof fn lemma_result_independent_of_pool(
    a: Matrix,
    b: Matrix,
    tasks1: Seq<MsgInput>,
    replies1: Seq<MsgOutput>,
    m1: Matrix,
    tasks2: Seq<MsgInput>,
    replies2: Seq<MsgOutput>,
    m2: Matrix,
)
    requires
        a.wf(),
        b.wf(),
        a.col == b.row,
        tasks1.len() == a.row * b.col,
        forall|k: int| 0 <= k < tasks1.len() ==> #[trigger] task_for(a, b, k, tasks1[k]),
        replies1.len() == tasks1.len(),
        forall|k: int| 0 <= k < tasks1.len() ==> #[trigger] answers(tasks1[k], replies1[k]),
        assembled(replies1, a.row as int, b.col as int, m1),
        tasks2.len() == a.row * b.col,
        forall|k: int| 0 <= k < tasks2.len() ==> #[trigger] task_for(a, b, k, tasks2[k]),
        replies2.len() == tasks2.len(),
        forall|k: int| 0 <= k < tasks2.len() ==> #[trigger] answers(tasks2[k], replies2[k]),
        assembled(replies2, a.row as int, b.col as int, m2),
    ensures
        m1.row == m2.row,
        m1.col == m2.col,
        m1.data@ == m2.data@,
{
    assert forall|k: int| 0 <= k < m1.data@.len() implies m1.data@[k] == m2.data@[k] by {
        assert(task_for(a, b, k, tasks1[k]));
        assert(answers(tasks1[k], replies1[k]));
        assert(task_for(a, b, k, tasks2[k]));
        assert(answers(tasks2[k], replies2[k]));
    }
    assert(m1.data@ =~= m2.data@);
}

} // verus!
