use augustus::util::Payload;
use augustus::workload::{
    one_less, Check, CloseLoop, Error, Invoke, Iter, OpLatency, Recorded, Stop, Then, Total,
    UnexpectedResult, Workload,
};
use std::collections::VecDeque;

fn payload(bytes: &[u8]) -> Payload {
    Payload(bytes.to_vec())
}

fn ops(all: &[&[u8]]) -> Iter {
    Iter(all.iter().map(|op| payload(op)).collect::<VecDeque<_>>())
}

fn checked(all: &[(&[u8], &[u8])]) -> Check {
    Check::new(all.iter().map(|(op, result)| (payload(op), payload(result))).collect())
}

#[test]
fn iter_hands_out_its_operations_in_order() {
    let mut workload = ops(&[b"a", b"b"]);
    assert_eq!(workload.next_op(), Ok(Some((payload(b"a"), ()))));
    assert_eq!(workload.on_result(payload(b"whatever"), ()), Ok(()));
    assert_eq!(workload.next_op(), Ok(Some((payload(b"b"), ()))));
    assert_eq!(workload.next_op(), Ok(None));
    assert_eq!(workload.next_op(), Ok(None));
}

#[test]
fn recorded_keeps_operations_with_their_results() {
    let mut workload = Recorded::new(ops(&[b"a", b"b"]));
    let (op, attach) = workload.next_op().unwrap().unwrap();
    assert_eq!(op, payload(b"a"));
    assert_eq!(attach, (payload(b"a"), ()));
    workload.on_result(payload(b"1"), attach).unwrap();
    let (_, attach) = workload.next_op().unwrap().unwrap();
    workload.on_result(payload(b"2"), attach).unwrap();
    assert_eq!(workload.next_op(), Ok(None));
    assert_eq!(
        workload.invocations,
        vec![(payload(b"a"), payload(b"1")), (payload(b"b"), payload(b"2"))]
    );
}

#[test]
fn op_latency_times_every_operation() {
    let mut workload = OpLatency::new(ops(&[b"a", b"b"]));
    assert_eq!(workload.latencies.len(), 0);
    let (op, attach) = workload.next_op().unwrap().unwrap();
    assert_eq!(op, payload(b"a"));
    workload.on_result(payload(b"1"), attach).unwrap();
    assert_eq!(workload.latencies.len(), 1);
    let (_, attach) = workload.next_op().unwrap().unwrap();
    workload.on_result(payload(b"2"), attach).unwrap();
    assert_eq!(workload.latencies.len(), 2);
    assert!(workload.next_op().unwrap().is_none());
    assert_eq!(workload.inner.0.len(), 0);
}

#[test]
fn total_cuts_off_after_its_count() {
    let mut workload = Total::new(ops(&[b"a", b"b", b"c"]), 2);
    assert_eq!(workload.next_op(), Ok(Some((payload(b"a"), ()))));
    assert_eq!(workload.on_result(payload(b"1"), ()), Ok(()));
    assert_eq!(workload.next_op(), Ok(Some((payload(b"b"), ()))));
    assert_eq!(workload.next_op(), Ok(None));
    assert_eq!(workload.next_op(), Ok(None));
}

#[test]
fn total_of_nothing_hands_out_nothing() {
    let mut workload = Total::new(ops(&[b"a"]), 0);
    assert_eq!(workload.next_op(), Ok(None));
}

#[test]
fn one_less_stops_at_zero() {
    assert_eq!(one_less(0), None);
    assert_eq!(one_less(1), Some(0));
    assert_eq!(one_less(u32::MAX), Some(u32::MAX - 1));
}

#[test]
fn check_takes_the_expected_result() {
    let mut workload = checked(&[(b"a", b"1"), (b"b", b"2")]);
    assert_eq!(workload.next_op(), Ok(Some((payload(b"a"), ()))));
    assert_eq!(workload.on_result(payload(b"1"), ()), Ok(()));
    assert_eq!(workload.next_op(), Ok(Some((payload(b"b"), ()))));
    assert_eq!(
        workload.on_result(payload(b"3"), ()),
        Err(Error::Unexpected(UnexpectedResult { expect: payload(b"2"), actual: payload(b"3") }))
    );
    assert_eq!(workload.next_op(), Ok(None));
}

#[test]
fn check_is_for_one_operation_at_a_time() {
    let mut workload = checked(&[(b"a", b"1"), (b"b", b"2")]);
    assert_eq!(workload.on_result(payload(b"1"), ()), Err(Error::MissingInvocation));
    workload.next_op().unwrap();
    assert_eq!(workload.next_op(), Err(Error::OnlyCloseLoop));
}

#[test]
fn close_loop_invokes_one_operation_after_the_other() {
    let mut close_loop = CloseLoop::new(checked(&[(b"a", b"1"), (b"b", b"2")]));
    assert_eq!(close_loop.on_init(), Ok(Invoke(payload(b"a"))));
    assert_eq!(close_loop.on_invoke_ok((0, payload(b"1"))), Ok(Then::Invoke(Invoke(payload(b"b")))));
    assert!(!close_loop.is_done());
    assert_eq!(close_loop.on_invoke_ok((0, payload(b"2"))), Ok(Then::Stop(Stop)));
    assert!(close_loop.is_done());
    assert_eq!(close_loop.on_invoke_ok((0, payload(b"3"))), Err(Error::MissingWorkloadAttach));
}

#[test]
fn close_loop_errors() {
    let mut empty = CloseLoop::new(ops(&[]));
    assert_eq!(empty.on_init(), Err(Error::NotEnoughOp));
    let mut twice = CloseLoop::new(ops(&[b"a", b"b"]));
    assert_eq!(twice.on_invoke_ok((0, payload(b"1"))), Err(Error::MissingWorkloadAttach));
    twice.on_init().unwrap();
    assert_eq!(twice.on_init(), Err(Error::DuplicatedLaunch));
    let mut wrong = CloseLoop::new(checked(&[(b"a", b"1")]));
    wrong.on_init().unwrap();
    assert_eq!(
        wrong.on_invoke_ok((0, payload(b"2"))),
        Err(Error::Unexpected(UnexpectedResult { expect: payload(b"1"), actual: payload(b"2") }))
    );
}

#[test]
fn close_loop_goes_on_with_what_it_is_handed() {
    let mut close_loop = CloseLoop::new(ops(&[]));
    assert_eq!(close_loop.launch(Ok(Some((payload(b"x"), ())))), Ok(Invoke(payload(b"x"))));
    assert_eq!(close_loop.launch(Ok(Some((payload(b"y"), ())))), Err(Error::DuplicatedLaunch));
    assert_eq!(close_loop.launch(Err(Error::OnlyCloseLoop)), Err(Error::OnlyCloseLoop));
    assert_eq!(close_loop.on_invoke_ok((0, payload(b"1"))), Ok(Then::Stop(Stop)));
}

#[test]
fn close_loop_keeps_its_workload_to_look_at() {
    let mut close_loop = CloseLoop::new(Recorded::new(ops(&[b"a"])));
    assert_eq!(close_loop.on_init(), Ok(Invoke(payload(b"a"))));
    assert_eq!(close_loop.on_invoke_ok((7, payload(b"1"))), Ok(Then::Stop(Stop)));
    assert_eq!(close_loop.get_workload().invocations, vec![(payload(b"a"), payload(b"1"))]);
}

#[test]
fn total_hands_out_only_what_was_taken_from_the_count() {
    let mut workload = Total::new(ops(&[b"a", b"b"]), 5);
    assert_eq!(workload.next_op_after(false), Ok(None));
    assert_eq!(workload.next_op_after(true), Ok(Some((payload(b"a"), ()))));
    assert_eq!(workload.next_op_after(false), Ok(None));
    assert_eq!(workload.next_op_after(true), Ok(Some((payload(b"b"), ()))));
    assert_eq!(workload.next_op_after(true), Ok(None));
}
