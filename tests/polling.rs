use epoch_state::polling::{take_until_stop, wait_tcp_step, WaitStep};

#[test]
fn wait_step_decisions() {
    assert_eq!(wait_tcp_step(true, 5000, Some(10), true, true), WaitStep::Online);
    assert_eq!(wait_tcp_step(false, 10, Some(10), true, true), WaitStep::TimedOut);
    assert_eq!(wait_tcp_step(false, 9, Some(10), true, true), WaitStep::Exited);
    assert_eq!(wait_tcp_step(false, 9, Some(10), false, true), WaitStep::Retry);
    assert_eq!(wait_tcp_step(false, 99999, None, true, false), WaitStep::Retry);
}

#[test]
fn chunk_is_cut_at_stopping_offset() {
    assert_eq!(take_until_stop(&[3, 4, 5, 6], Some(5)), (2, true));
    assert_eq!(take_until_stop(&[3, 4], Some(5)), (2, false));
    assert_eq!(take_until_stop(&[3, 4], None), (2, false));
    assert_eq!(take_until_stop(&[7], Some(5)), (0, true));
    assert_eq!(take_until_stop(&[], Some(5)), (0, false));
}
