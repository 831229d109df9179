use std::cell::RefCell;
use std::rc::Rc;

use rust_pop3_client::session::Pop3Connection;
use rust_pop3_client::transport::{ScriptedTransport, StringSink, Transport};
use rust_pop3_client::Pop3Error;

fn session_over(script: &[u8]) -> Pop3Connection<ScriptedTransport> {
    // every session starts with a positive greeting line
    let mut data = b"+OK ready\r\n".to_vec();
    data.extend_from_slice(script);
    Pop3Connection::new(ScriptedTransport::new(data, 512)).unwrap()
}

/// A transport for observing the outgoing side: it records everything
/// written and replays a fixed incoming script.
struct RecordingTransport {
    data: Vec<u8>,
    pos: usize,
    log: Rc<RefCell<Vec<String>>>,
}

impl Transport for RecordingTransport {
    fn read_some(&mut self, max: usize) -> Result<Vec<u8>, Pop3Error> {
        if self.pos >= self.data.len() {
            return Err(Pop3Error::Transport("closed".to_string()));
        }
        let end = (self.pos + max).min(self.data.len());
        let chunk = self.data[self.pos..end].to_vec();
        self.pos = end;
        Ok(chunk)
    }

    fn write_text(&mut self, data: &str) -> Result<(), Pop3Error> {
        self.log.borrow_mut().push(data.to_string());
        Ok(())
    }
}

#[test]
fn scripted_transport_records_writes() {
    let mut t = ScriptedTransport::new(Vec::new(), 4);
    t.write_text("STAT\r\n").unwrap();
    t.write_text("QUIT\r\n").unwrap();
    assert_eq!("STAT\r\nQUIT\r\n", t.written());
}

#[test]
fn greeting_is_checked_on_open() {
    let t = ScriptedTransport::new(b"-ERR busy\r\n".to_vec(), 512);
    let r = Pop3Connection::new(t);
    match r {
        Err(Pop3Error::Protocol(m)) => assert_eq!("-ERR busy", m),
        _ => panic!("expected a protocol error"),
    }
}

#[test]
fn multi_line_invocation_scenario() {
    // input bytes "+OK\r\nHello\n.\n": the status line is positive and
    // the body is exactly ["Hello"]
    let mut session = session_over(b"+OK\r\nHello\n.\n");
    let body = session.invoke_multi_line("RETR 1\r\n").unwrap();
    assert_eq!(vec!["Hello".to_string()], body);
}

#[test]
fn terminator_line_ends_body_and_is_excluded() {
    // the lone "." ends the body; later bytes belong to the next reply
    let mut session = session_over(b"+OK\r\nA\nB\n.\n+OK later\r\n");
    let body = session.invoke_multi_line("RETR 1\r\n").unwrap();
    assert_eq!(vec!["A".to_string(), "B".to_string()], body);
    let status = session.invoke_single_line("NOOP\r\n").unwrap();
    assert_eq!("+OK later", status);
}

#[test]
fn leading_marker_is_stripped_once() {
    // "..text" is returned as ".text"; ".text" is returned as "text"
    let mut session = session_over(b"+OK\r\n..text\n.text\n.\n");
    let body = session.invoke_multi_line("RETR 1\r\n").unwrap();
    assert_eq!(vec![".text".to_string(), "text".to_string()], body);
}

#[test]
fn multi_line_invocation_stops_on_negative_status() {
    let mut session = session_over(b"-ERR not here\nthese bytes stay\n");
    let r = session.invoke_multi_line("RETR 9\r\n");
    match r {
        Err(Pop3Error::Protocol(m)) => assert_eq!("-ERR not here", m),
        _ => panic!("expected a protocol error"),
    }
    // nothing past the status line was consumed
    let next = session.invoke_single_line("NOOP\r\n");
    match next {
        Err(Pop3Error::Protocol(m)) => assert_eq!("these bytes stay", m),
        _ => panic!("expected the following line untouched"),
    }
}

#[test]
fn parse_failure_names_the_expected_field() {
    let mut session = session_over(b"+OK\r\n");
    match session.stat() {
        Err(Pop3Error::Parse(m)) => assert_eq!("missing message count", m),
        _ => panic!("expected a parse error"),
    }
    let mut session = session_over(b"+OK 1\r\n");
    match session.get_message_size(1) {
        Err(Pop3Error::Parse(m)) => assert_eq!("missing size", m),
        _ => panic!("expected a parse error"),
    }
    let mut session = session_over(b"+OK 1\r\n");
    match session.get_unique_id(1) {
        Err(Pop3Error::Parse(m)) => assert_eq!("missing unique id", m),
        _ => panic!("expected a parse error"),
    }
}

#[test]
fn stat_reply_parses_to_counts() {
    let mut session = session_over(b"+OK 3 9000\r\n");
    let stat = session.stat().unwrap();
    assert_eq!(3, stat.message_count);
    assert_eq!(9000, stat.maildrop_size);
}

#[test]
fn negative_reply_raises_protocol_error() {
    let mut session = session_over(b"-ERR no such message\r\n");
    let r = session.delete(7);
    match r {
        Err(Pop3Error::Protocol(m)) => assert_eq!("-ERR no such message", m),
        _ => panic!("expected a protocol error"),
    }
}

#[test]
fn message_size_round_trip() {
    // formatting LIST <id> and parsing the reply "+OK 5 2048" yields
    // size 2048 for message id 5
    let cmd = rust_pop3_client::session::command_list(5);
    assert_eq!("LIST 5\r\n", cmd);
    let mut session = session_over(b"+OK 5 2048\r\n");
    let size = session.get_message_size(5).unwrap();
    assert_eq!(2048, size);
}

#[test]
fn list_parses_each_body_line() {
    let mut session = session_over(b"+OK\r\n1 120\n2 2048\n.\n");
    let infos = session.list().unwrap();
    assert_eq!(2, infos.len());
    assert_eq!(1, infos[0].message_id);
    assert_eq!(120, infos[0].message_size);
    assert_eq!(2, infos[1].message_id);
    assert_eq!(2048, infos[1].message_size);
}

#[test]
fn list_rejects_non_numeric_size() {
    let mut session = session_over(b"+OK\r\n1 big\n.\n");
    let r = session.list();
    assert!(matches!(r, Err(Pop3Error::Parse(_))));
}

#[test]
fn unique_ids_are_opaque_tokens() {
    let mut session = session_over(b"+OK\r\n1 whqtswO00VHdAoZd9gfys\n2 QhdPYR:00WBw1Ph7x7\n.\n");
    let infos = session.list_unique_ids().unwrap();
    assert_eq!(2, infos.len());
    assert_eq!(1, infos[0].message_id);
    assert_eq!("whqtswO00VHdAoZd9gfys", infos[0].unique_id);
    assert_eq!(2, infos[1].message_id);
    assert_eq!("QhdPYR:00WBw1Ph7x7", infos[1].unique_id);
}

#[test]
fn unique_id_of_one_message() {
    let mut session = session_over(b"+OK 2 QhdPYR:00WBw1Ph7x7\r\n");
    let uid = session.get_unique_id(2).unwrap();
    assert_eq!("QhdPYR:00WBw1Ph7x7", uid);
}

#[test]
fn retrieve_writes_lines_to_sink() {
    let mut session = session_over(b"+OK\r\nFrom: a@b\n\nBody text\n.\n");
    let mut sink = StringSink::new();
    session.retrieve(1, &mut sink).unwrap();
    assert_eq!("From: a@b\n\nBody text\n", sink.content);
}

#[test]
fn top_joins_lines_with_line_feeds() {
    let mut session = session_over(b"+OK\r\nSubject: hi\nFirst line\n.\n");
    let text = session.top(1, 1).unwrap();
    assert_eq!("Subject: hi\nFirst line\n", text);
}

#[test]
fn login_issues_user_then_pass() {
    let log = Rc::new(RefCell::new(Vec::new()));
    let t = RecordingTransport {
        data: b"+OK ready\r\n+OK user\r\n+OK logged in\r\n".to_vec(),
        pos: 0,
        log: log.clone(),
    };
    let mut session = Pop3Connection::new(t).unwrap();
    session.login("bob", "secret").unwrap();
    assert_eq!(
        vec!["USER bob\r\n".to_string(), "PASS secret\r\n".to_string()],
        *log.borrow()
    );
}

#[test]
fn login_aborts_on_rejected_user() {
    let mut session = session_over(b"-ERR unknown user\r\n");
    let r = session.login("bob", "secret");
    match r {
        Err(Pop3Error::Protocol(m)) => assert_eq!("-ERR unknown user", m),
        _ => panic!("expected a protocol error"),
    }
}

#[test]
fn reset_accepts_positive_reply() {
    let mut session = session_over(b"+OK\r\n");
    session.reset().unwrap();
}

#[test]
fn quit_sends_termination_command_once() {
    // disposal-time termination: one QUIT is written, whatever the
    // server answers, and a failure is reported, never a panic
    let log = Rc::new(RefCell::new(Vec::new()));
    let t = RecordingTransport {
        data: b"+OK ready\r\n+OK bye\r\n".to_vec(),
        pos: 0,
        log: log.clone(),
    };
    let mut session = Pop3Connection::new(t).unwrap();
    session.quit().unwrap();
    let quits = log.borrow().iter().filter(|c| c.as_str() == "QUIT\r\n").count();
    assert_eq!(1, quits);
}

#[test]
fn quit_swallows_nothing_but_reports_failure() {
    // even with the stream closed, quit returns an error instead of
    // panicking, so a disposal wrapper can discard it
    let log = Rc::new(RefCell::new(Vec::new()));
    let t = RecordingTransport { data: b"+OK ready\r\n".to_vec(), pos: 0, log: log.clone() };
    let mut session = Pop3Connection::new(t).unwrap();
    let r = session.quit();
    assert!(r.is_err());
    let quits = log.borrow().iter().filter(|c| c.as_str() == "QUIT\r\n").count();
    assert_eq!(1, quits);
}
