use echo_server::client::EchoClient;
use echo_server::error::{Fatal, ReadOutcome, WriteOutcome};
use echo_server::reactor::{Action, Interest, PollOpt, Registration, Token};

fn harness(msgs: &[&str]) -> EchoClient {
    EchoClient::new(Token(1), msgs.iter().map(|m| m.as_bytes().to_vec()).collect())
}

fn rearm(interest: Interest) -> Action {
    Action::Reregister(Registration { token: Token(1), interest, opts: PollOpt::edge_oneshot() })
}

#[test]
fn harness_starts_on_the_first_message() {
    let c = harness(&["foo", "bar"]);
    assert_eq!(c.token, Token(1));
    assert_eq!(c.interest, Interest::writable());
    assert_eq!(c.pending_output(), b"foo".to_vec());
    assert_eq!(c.msgs, vec![b"bar".to_vec()]);
}

#[test]
fn harness_blocked_write_asks_again() {
    let mut c = harness(&["foo"]);
    for _ in 0..3 {
        let r = c.writable(WriteOutcome::WouldBlock);
        assert_eq!(r.interest, Interest::writable());
        assert_eq!(c.pending_output(), b"foo".to_vec());
    }
    let r = c.writable(WriteOutcome::Wrote(3));
    assert_eq!(r.interest, Interest::readable());
    assert_eq!(r.token, Token(1));
    assert_eq!(r.opts, PollOpt::edge_oneshot());
    assert!(c.pending_output().is_empty());
}

#[test]
fn harness_write_error_drops_writable() {
    let mut c = harness(&["foo"]);
    let r = c.writable(WriteOutcome::Error);
    assert!(r.interest.is_none());
    assert_eq!(c.pending_output(), b"foo".to_vec());
}

#[test]
fn harness_short_write_keeps_the_rest() {
    let mut c = harness(&["hello"]);
    c.writable(WriteOutcome::Wrote(2));
    assert_eq!(c.pending_output(), b"llo".to_vec());
    c.writable(WriteOutcome::Wrote(9));
    assert!(c.pending_output().is_empty());
}

#[test]
fn harness_names_the_byte_that_differs() {
    let mut c = harness(&["foo"]);
    c.writable(WriteOutcome::Wrote(3));
    assert_eq!(
        c.readable(ReadOutcome::Data(b"fxo".to_vec())),
        Err(Fatal::Mismatch { actual: b'x', expect: b'o' })
    );
    // Nothing was consumed.
    assert_eq!(c.rx_pos, 0);
    assert_eq!(c.interest, Interest::readable());
    assert_eq!(c.readable(ReadOutcome::Data(b"foo".to_vec())), Ok(Action::Shutdown));
}

#[test]
fn harness_refuses_bytes_after_the_echo() {
    let mut c = harness(&["foo", "bar"]);
    c.writable(WriteOutcome::Wrote(3));
    assert_eq!(
        c.readable(ReadOutcome::Data(b"foob".to_vec())),
        Err(Fatal::Excess { actual: b'b' })
    );
    assert_eq!(c.msgs.len(), 1);
    // A fault in the expected part comes first.
    assert_eq!(
        c.readable(ReadOutcome::Data(b"fxob".to_vec())),
        Err(Fatal::Mismatch { actual: b'x', expect: b'o' })
    );
}

#[test]
fn harness_read_without_data_is_fatal() {
    let mut c = harness(&["foo"]);
    c.writable(WriteOutcome::Wrote(3));
    assert_eq!(c.readable(ReadOutcome::WouldBlock), Err(Fatal::ReadWouldBlock));
    assert_eq!(c.readable(ReadOutcome::Data(Vec::new())), Err(Fatal::ReadWouldBlock));
    assert_eq!(c.readable(ReadOutcome::Accepted), Err(Fatal::UnexpectedOutcome));
    assert_eq!(c.interest, Interest::readable());
}

#[test]
fn harness_read_error_drops_readable() {
    let mut c = harness(&["foo"]);
    c.writable(WriteOutcome::Wrote(3));
    assert_eq!(c.readable(ReadOutcome::Error), Ok(rearm(Interest::none())));
    assert!(c.interest.is_none());
}

#[test]
fn harness_takes_an_echo_in_pieces() {
    let mut c = harness(&["hello", "bye"]);
    c.writable(WriteOutcome::Wrote(5));
    assert_eq!(c.readable(ReadOutcome::Data(b"he".to_vec())), Ok(rearm(Interest::readable())));
    assert_eq!(c.msgs.len(), 1);
    assert_eq!(c.readable(ReadOutcome::Data(b"l".to_vec())), Ok(rearm(Interest::readable())));
    assert_eq!(
        c.readable(ReadOutcome::Data(b"xo".to_vec())),
        Err(Fatal::Mismatch { actual: b'x', expect: b'l' })
    );
    assert_eq!(c.readable(ReadOutcome::Data(b"lo".to_vec())), Ok(rearm(Interest::writable())));
    assert!(c.msgs.is_empty());
    assert_eq!(c.pending_output(), b"bye".to_vec());
}

#[test]
fn harness_sends_the_next_message_only_after_the_echo() {
    let mut c = harness(&["foo", "bar"]);
    c.writable(WriteOutcome::Wrote(3));
    assert!(c.pending_output().is_empty());
    c.readable(ReadOutcome::Data(b"fo".to_vec())).unwrap();
    // The echo is incomplete: "bar" is still queued and nothing is to send.
    assert_eq!(c.msgs, vec![b"bar".to_vec()]);
    assert!(c.pending_output().is_empty());
    c.writable(WriteOutcome::WouldBlock);
    assert_eq!(c.msgs, vec![b"bar".to_vec()]);
    assert!(c.pending_output().is_empty());
    assert_eq!(c.readable(ReadOutcome::Data(b"o".to_vec())), Ok(rearm(Interest::writable())));
    assert!(c.msgs.is_empty());
    assert_eq!(c.pending_output(), b"bar".to_vec());
}

#[test]
fn harness_asks_to_stop_once() {
    let mut c = harness(&["foo"]);
    c.writable(WriteOutcome::Wrote(3));
    assert_eq!(c.readable(ReadOutcome::Data(b"foo".to_vec())), Ok(Action::Shutdown));
    assert!(c.interest.is_none());
    assert_eq!(c.readable(ReadOutcome::Data(b"foo".to_vec())), Err(Fatal::Excess { actual: b'f' }));
    assert_eq!(c.readable(ReadOutcome::WouldBlock), Err(Fatal::ReadWouldBlock));
    assert_eq!(c.readable(ReadOutcome::Error), Ok(rearm(Interest::none())));
    assert_eq!(c.next_msg(), Action::Shutdown);
}

#[test]
fn next_msg_pops_the_head_of_the_queue() {
    let mut c = harness(&["a", "bc", "def"]);
    assert_eq!(c.next_msg(), rearm(Interest::writable()));
    assert_eq!(c.pending_output(), b"bc".to_vec());
    assert_eq!(c.msgs, vec![b"def".to_vec()]);
    assert_eq!(c.next_msg(), rearm(Interest::writable()));
    assert_eq!(c.pending_output(), b"def".to_vec());
    assert_eq!(c.next_msg(), Action::Shutdown);
    assert_eq!(c.pending_output(), b"def".to_vec());
}

#[test]
fn next_msg_subscribes_to_writable_alone() {
    let mut c = harness(&["a", "bc"]);
    c.interest = Interest::readable();
    assert_eq!(c.next_msg(), rearm(Interest::writable()));
    assert_eq!(c.interest, Interest::writable());
    assert!(!c.interest.is_readable());

    let mut c = harness(&["a", "bc"]);
    c.interest = Interest::hup();
    c.interest.insert(Interest::readable());
    assert_eq!(c.next_msg(), rearm(Interest::writable()));
    assert_eq!(c.interest, Interest::writable());
}

#[test]
fn harness_progress_switches_to_readable_alone() {
    let mut c = harness(&["foo"]);
    c.interest.insert(Interest::hup());
    let r = c.writable(WriteOutcome::Wrote(1));
    assert_eq!(r.interest, Interest::readable());
    assert_eq!(c.interest, Interest::readable());
}
