use std::sync::mpsc;

use rust_concurrency::matrix::{multiply, Matrix, MultiplyError};
use rust_concurrency::pool::{
    answer, assemble, assign_worker, collect, dispatch, multiply_on_workers, plan_tasks, serve,
    Msg, MsgInput, MsgOutput,
};

/// Runs the whole protocol on the calling thread: the workers' queues are
/// drained one after another once everything is dispatched. `skip` names a
/// cell whose task is dropped unanswered.
fn run(a: &Matrix, b: &Matrix, workers: usize, skip: Option<usize>) -> Result<Matrix, MultiplyError> {
    let tasks = plan_tasks(a, b)?;
    let mut queues = Vec::new();
    let mut inboxes = Vec::new();
    for _ in 0..workers {
        let (tx, rx) = mpsc::channel::<Msg>();
        queues.push(tx);
        inboxes.push(rx);
    }
    let receivers = dispatch(tasks, queues)?;
    for (k, (idx, _)) in receivers.iter().enumerate() {
        assert_eq!(*idx, k);
    }
    for (w, inbox) in inboxes.iter().enumerate() {
        for msg in inbox.iter() {
            assert_eq!(msg.input.idx % workers, w);
            if Some(msg.input.idx) == skip {
                continue;
            }
            serve(msg).unwrap();
        }
    }
    let replies = collect(receivers)?;
    assemble(replies, a.row, b.col)
}

#[test]
fn pool_multiplies_two_by_two() {
    let a = Matrix::new(vec![1, 2, 3, 4], 2, 2);
    let b = Matrix::new(vec![1, 2, 3, 4], 2, 2);
    let c = run(&a, &b, 4, None).unwrap();
    assert_eq!(c.row, 2);
    assert_eq!(c.col, 2);
    assert_eq!(c.data, vec![7, 10, 15, 22]);
    assert_eq!(c.to_string(), "{7 10,15 22}");
}

#[test]
fn pool_multiplies_hundred_square_ones() {
    let a = Matrix::new(vec![1; 100 * 100], 100, 100);
    let b = Matrix::new(vec![1; 100 * 100], 100, 100);
    let c = run(&a, &b, 4, None).unwrap();
    assert_eq!(c.data.len(), 100 * 100);
    assert!(c.data.iter().all(|&x| x == 100));
}

#[test]
fn pool_result_matches_sequential_for_every_pool_size() {
    let a = Matrix::new(vec![3, -1, 4, 1, -5, 9, 2, 6, -5, 3, 5, 8], 3, 4);
    let b = Matrix::new(vec![2, 7, -1, 8, 2, 8, 1, -8, 2, 8, 4, 5, 9, 0, 4], 4, 3);
    let expected = multiply(&a, &b).unwrap();
    for workers in [1, 2, 3, 4, 9, 50] {
        let c = run(&a, &b, workers, None).unwrap();
        assert_eq!((c.row, c.col), (expected.row, expected.col));
        assert_eq!(c.data, expected.data);
    }
}

#[test]
fn pool_rejects_mismatched_dimensions() {
    let a = Matrix::new(vec![1, 2, 3, 4, 5, 6], 2, 3);
    let b = Matrix::new(vec![1, 2, 3, 4], 2, 2);
    assert!(matches!(run(&a, &b, 2, None), Err(MultiplyError::DimensionMismatch)));
    assert!(matches!(plan_tasks(&a, &b), Err(MultiplyError::DimensionMismatch)));
}

#[test]
fn pool_by_identity_gives_the_matrix_back() {
    let a = Matrix::new(vec![4, 0, -2, 7], 2, 2);
    let id = Matrix::new(vec![1, 0, 0, 1], 2, 2);
    let c = run(&a, &id, 3, None).unwrap();
    assert_eq!(c.data, a.data);
}

#[test]
fn unanswered_task_fails_the_pool_with_worker_failure() {
    let a = Matrix::new(vec![1, 2, 3, 4], 2, 2);
    let b = Matrix::new(vec![1, 2, 3, 4], 2, 2);
    assert!(matches!(run(&a, &b, 2, Some(1)), Err(MultiplyError::WorkerFailure)));
}

#[test]
fn dispatch_to_a_closed_queue_fails() {
    let a = Matrix::new(vec![1, 2, 3, 4], 2, 2);
    let tasks = plan_tasks(&a, &a).unwrap();
    let (tx, rx) = mpsc::channel::<Msg>();
    drop(rx);
    assert!(matches!(dispatch(tasks, vec![tx]), Err(MultiplyError::DispatchFailure)));
}

#[test]
fn plan_copies_rows_and_columns() {
    let a = Matrix::new(vec![1, 2, 3, 4, 5, 6], 2, 3);
    let b = Matrix::new(vec![7, 8, 9, 10, 11, 12], 3, 2);
    let tasks = plan_tasks(&a, &b).unwrap();
    assert_eq!(tasks.len(), 4);
    assert_eq!(tasks[3].idx, 3);
    assert_eq!(tasks[3].row, vec![4, 5, 6]);
    assert_eq!(tasks[3].col, vec![8, 10, 12]);
    assert_eq!(tasks[2].row, vec![4, 5, 6]);
    assert_eq!(tasks[2].col, vec![7, 9, 11]);
}

#[test]
fn tasks_are_dealt_round_robin() {
    assert_eq!(assign_worker(0, 4), 0);
    assert_eq!(assign_worker(5, 4), 1);
    assert_eq!(assign_worker(7, 1), 0);
    assert_eq!(assign_worker(3, 10), 3);
}

#[test]
fn answer_computes_the_cell() {
    let out = answer(MsgInput::new(5, vec![1, 2, 3], vec![4, 5, 6])).unwrap();
    assert_eq!((out.idx, out.data), (5, 32));
    assert!(matches!(
        answer(MsgInput::new(0, vec![1], vec![1, 2])),
        Err(MultiplyError::DimensionMismatch)
    ));
    assert!(matches!(
        answer(MsgInput::new(0, vec![i64::MAX, 1], vec![1, 1])),
        Err(MultiplyError::WorkerFailure)
    ));
}

#[test]
fn assemble_needs_every_reply_in_place() {
    let ok = assemble(vec![MsgOutput::new(0, 9), MsgOutput::new(1, 8)], 1, 2).unwrap();
    assert_eq!((ok.row, ok.col, ok.data), (1, 2, vec![9, 8]));
    assert!(matches!(
        assemble(vec![MsgOutput::new(0, 9)], 1, 2),
        Err(MultiplyError::WorkerFailure)
    ));
    assert!(matches!(
        assemble(vec![MsgOutput::new(1, 9), MsgOutput::new(0, 8)], 1, 2),
        Err(MultiplyError::WorkerFailure)
    ));
}

#[test]
fn dispatch_of_no_tasks_succeeds_even_on_a_closed_queue() {
    let (tx, rx) = mpsc::channel::<Msg>();
    drop(rx);
    let receivers = dispatch(Vec::new(), vec![tx]).unwrap();
    assert!(receivers.is_empty());
    assert!(collect(receivers).unwrap().is_empty());
}

#[test]
fn collect_refuses_a_reply_for_another_cell() {
    let a = Matrix::new(vec![1, 2, 3, 4], 2, 2);
    let tasks = plan_tasks(&a, &a).unwrap();
    let (tx, rx) = mpsc::channel::<Msg>();
    let receivers = dispatch(tasks, vec![tx]).unwrap();
    for msg in rx.iter() {
        serve(msg).unwrap();
    }
    let mut pairs = receivers.into_iter();
    let (first, rx0) = pairs.next().unwrap();
    let (second, rx1) = pairs.next().unwrap();
    let receivers = vec![(first, rx1), (second, rx0)];
    assert!(matches!(collect(receivers), Err(MultiplyError::WorkerFailure)));
}

#[test]
fn multiply_on_workers_rejects_mismatched_dimensions() {
    let a = Matrix::new(vec![1, 2, 3, 4, 5, 6], 2, 3);
    let b = Matrix::new(vec![1, 2, 3, 4], 2, 2);
    let (tx, _rx) = mpsc::channel::<Msg>();
    assert!(matches!(
        multiply_on_workers(&a, &b, vec![tx]),
        Err(MultiplyError::DimensionMismatch)
    ));
}

#[test]
fn multiply_on_workers_without_cells_needs_no_worker() {
    let a = Matrix::new(vec![], 0, 3);
    let b = Matrix::new(vec![1, 2, 3], 3, 1);
    let (tx, rx) = mpsc::channel::<Msg>();
    drop(rx);
    let c = multiply_on_workers(&a, &b, vec![tx]).unwrap();
    assert_eq!((c.row, c.col, c.data.len()), (0, 1, 0));
}

#[test]
fn multiply_on_workers_reports_a_closed_queue() {
    let a = Matrix::new(vec![1, 2, 3, 4], 2, 2);
    let (tx, rx) = mpsc::channel::<Msg>();
    drop(rx);
    assert!(matches!(
        multiply_on_workers(&a, &a, vec![tx]),
        Err(MultiplyError::DispatchFailure)
    ));
}
