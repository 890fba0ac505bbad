use echo_server::echo::Echo;
use echo_server::error::{Fatal, ReadOutcome, WriteOutcome};
use echo_server::reactor::{Action, Interest, PollOpt, Registration, Token, CLIENT, SERVER};

fn reg(token: usize, interest: Interest, opts: PollOpt) -> Registration {
    Registration { token: Token(token), interest, opts }
}

fn queue(msgs: &[&str]) -> Vec<Vec<u8>> {
    msgs.iter().map(|m| m.as_bytes().to_vec()).collect()
}

/// One full round trip of `msg` through connection `conn`, after which the
/// harness answers `last`.
fn round_trip(echo: &mut Echo, conn: usize, msg: &[u8], last: Action) {
    // The harness sends the message.
    assert_eq!(echo.client.pending_output(), msg.to_vec());
    assert_eq!(
        echo.writable(Token(CLIENT), WriteOutcome::Wrote(msg.len())),
        Ok(Action::Reregister(reg(CLIENT, Interest::readable(), PollOpt::edge_oneshot())))
    );
    // The connection reads it.
    assert_eq!(
        echo.readable(Token(conn), ReadOutcome::Data(msg.to_vec())),
        Ok(Action::Reregister(reg(conn, Interest::writable(), PollOpt::edge())))
    );
    // The connection writes it back.
    let out = echo.server.conns.get(Token(conn)).unwrap().pending_output();
    assert_eq!(out, msg.to_vec());
    assert_eq!(
        echo.writable(Token(conn), WriteOutcome::Wrote(out.len())),
        Ok(Action::Reregister(reg(conn, Interest::readable(), PollOpt::edge_oneshot())))
    );
    // The harness verifies the echo.
    assert_eq!(echo.readable(Token(CLIENT), ReadOutcome::Data(out)), Ok(last));
}

#[test]
fn test_echo_server() {
    let mut echo = Echo::new(queue(&["foo", "bar"]));

    assert_eq!(
        echo.readable(Token(SERVER), ReadOutcome::Accepted),
        Ok(Action::Register(reg(2, Interest::readable(), PollOpt::edge_oneshot())))
    );

    round_trip(
        &mut echo,
        2,
        b"foo",
        Action::Reregister(reg(CLIENT, Interest::writable(), PollOpt::edge_oneshot())),
    );
    round_trip(&mut echo, 2, b"bar", Action::Shutdown);

    assert!(echo.client.msgs.is_empty());
    assert!(echo.client.pending_output().is_empty());
    assert!(echo.server.conns.get(Token(2)).unwrap().can_read());
}

#[test]
fn listener_never_takes_writable() {
    let mut echo = Echo::new(queue(&["foo"]));
    assert_eq!(echo.writable(Token(SERVER), WriteOutcome::Wrote(1)), Err(Fatal::ListenerWritable));
    assert_eq!(echo.writable(Token(SERVER), WriteOutcome::WouldBlock), Err(Fatal::ListenerWritable));
    assert_eq!(echo.server.conns.count(), 0);
}

#[test]
fn accept_without_pending_connection_is_fatal() {
    let mut echo = Echo::new(queue(&["foo"]));
    assert_eq!(echo.readable(Token(SERVER), ReadOutcome::WouldBlock), Err(Fatal::AcceptWouldBlock));
    assert_eq!(echo.readable(Token(SERVER), ReadOutcome::Error), Err(Fatal::AcceptFailed));
    assert_eq!(
        echo.readable(Token(SERVER), ReadOutcome::Data(vec![1])),
        Err(Fatal::UnexpectedOutcome)
    );
    assert_eq!(echo.server.conns.count(), 0);
}

#[test]
fn unknown_token_is_fatal() {
    let mut echo = Echo::new(queue(&["foo"]));
    assert_eq!(echo.readable(Token(2), ReadOutcome::Data(vec![1])), Err(Fatal::UnknownToken));
    assert_eq!(echo.writable(Token(7), WriteOutcome::Wrote(1)), Err(Fatal::UnknownToken));
    echo.readable(Token(SERVER), ReadOutcome::Accepted).unwrap();
    assert_eq!(echo.readable(Token(3), ReadOutcome::Data(vec![1])), Err(Fatal::UnknownToken));
}

#[test]
fn event_for_the_wrong_direction_is_fatal() {
    let mut echo = Echo::new(queue(&["foo"]));
    echo.readable(Token(SERVER), ReadOutcome::Accepted).unwrap();
    // Nothing to write back yet.
    assert_eq!(echo.writable(Token(2), WriteOutcome::Wrote(1)), Err(Fatal::NoBuffer));
    echo.readable(Token(2), ReadOutcome::Data(vec![9])).unwrap();
    // The buffer is on the write side now.
    assert_eq!(echo.readable(Token(2), ReadOutcome::Data(vec![9])), Err(Fatal::NoBuffer));
    assert_eq!(echo.readable(Token(2), ReadOutcome::Accepted), Err(Fatal::NoBuffer));
}

#[test]
fn accepted_is_no_outcome_of_a_read() {
    let mut echo = Echo::new(queue(&["foo"]));
    echo.readable(Token(SERVER), ReadOutcome::Accepted).unwrap();
    assert_eq!(echo.readable(Token(2), ReadOutcome::Accepted), Err(Fatal::UnexpectedOutcome));
    assert_eq!(echo.readable(Token(CLIENT), ReadOutcome::Accepted), Err(Fatal::UnexpectedOutcome));
}

#[test]
fn each_accept_gets_a_token_of_its_own() {
    let mut echo = Echo::new(queue(&["foo"]));
    let mut seen: Vec<usize> = Vec::new();
    for n in 0..300usize {
        match echo.readable(Token(SERVER), ReadOutcome::Accepted) {
            Ok(Action::Register(r)) => {
                assert_eq!(r, reg(2 + n, Interest::readable(), PollOpt::edge_oneshot()));
                assert!(r.token.0 != SERVER && r.token.0 != CLIENT);
                assert!(!seen.contains(&r.token.0));
                seen.push(r.token.0);
            }
            other => panic!("accept {} answered {:?}", n, other),
        }
        assert_eq!(echo.server.conns.count(), n + 1);
    }
    for t in &seen {
        assert_eq!(echo.server.conns.get(Token(*t)).unwrap().token, Token(*t));
        assert!(echo.server.conns.get(Token(*t)).unwrap().can_read());
    }
    assert!(echo.server.conns.get(Token(302)).is_none());
}

#[test]
fn the_table_grows_past_any_fixed_size() {
    let mut echo = Echo::new(queue(&["foo"]));
    for _ in 0..128usize {
        echo.readable(Token(SERVER), ReadOutcome::Accepted).unwrap();
    }
    assert_eq!(
        echo.readable(Token(SERVER), ReadOutcome::Accepted),
        Ok(Action::Register(reg(130, Interest::readable(), PollOpt::edge_oneshot())))
    );
    assert_eq!(echo.server.conns.count(), 129);
    assert_eq!(
        echo.readable(Token(130), ReadOutcome::Data(vec![1, 2])),
        Ok(Action::Reregister(reg(130, Interest::writable(), PollOpt::edge())))
    );
}

#[test]
fn a_failed_read_stops_the_connection_for_good() {
    let mut echo = Echo::new(queue(&["foo"]));
    echo.readable(Token(SERVER), ReadOutcome::Accepted).unwrap();
    assert_eq!(
        echo.readable(Token(2), ReadOutcome::Error),
        Ok(Action::Reregister(reg(2, Interest::none(), PollOpt::edge())))
    );
    // No response is staged and no event moves the connection again.
    assert_eq!(echo.writable(Token(2), WriteOutcome::Wrote(1)), Err(Fatal::NoBuffer));
    assert_eq!(echo.writable(Token(2), WriteOutcome::WouldBlock), Err(Fatal::NoBuffer));
    assert_eq!(echo.readable(Token(2), ReadOutcome::Data(vec![1])), Err(Fatal::NoBuffer));
    let conn = echo.server.conns.get(Token(2)).unwrap();
    assert!(conn.interest.is_none());
    assert!(!conn.can_read() && !conn.can_write());
}

#[test]
fn connections_do_not_disturb_one_another() {
    let mut echo = Echo::new(queue(&["foo"]));
    echo.readable(Token(SERVER), ReadOutcome::Accepted).unwrap();
    echo.readable(Token(SERVER), ReadOutcome::Accepted).unwrap();
    echo.readable(Token(2), ReadOutcome::Data(b"abc".to_vec())).unwrap();
    echo.readable(Token(3), ReadOutcome::Data(b"xy".to_vec())).unwrap();
    assert_eq!(echo.server.conns.get(Token(2)).unwrap().pending_output(), b"abc".to_vec());
    assert_eq!(echo.server.conns.get(Token(3)).unwrap().pending_output(), b"xy".to_vec());
    echo.server.conn(Token(3)).writable(WriteOutcome::Wrote(2));
    assert!(echo.server.conns.get(Token(3)).unwrap().can_read());
    assert!(echo.server.conns.get(Token(2)).unwrap().can_write());
}
