//! The response-protocol engine and the command session.
//!
//! Built on the line reader, the engine implements the two reply shapes
//! of the protocol: a single status line, and a multi-line block that
//! follows a positive status line and ends at a lone terminator line,
//! with one leading marker stripped from escaped body lines.  The
//! session layers the typed commands on top of the engine.
//!
//! All contracts are phrased over the available stream of a session —
//! the buffered bytes followed by what its transport will deliver — and
//! over the transport's outgoing stream, so they pin down, for each
//! reply the server can send, exactly what a call writes, returns, and
//! where the stream stands afterwards.  Over a reliable transport (see
//! [`Transport::reliable`]) they also force the outcome itself.

use vstd::prelude::*;
use vstd::string::*;

use crate::line_reader::{
    line_read, line_readable, next_line, rest_of, LineReader, BUFFER_SIZE,
};
use crate::parse::{
    info_of, parse_info_line, parse_message_size_line, parse_stat_line, parse_uid_info_line,
    parse_unique_id_line, size_err_of, size_of_reply, stat_err_of, stat_of, uid_info_of,
    uid_of_reply, uid_reply_err_of,
};
use crate::text::{dec_digits, u32_to_dec};
use crate::transport::{MessageSink, Transport};
use crate::{Pop3Error, Pop3MessageInfo, Pop3MessageUidInfo, Pop3Stat};

verus! {

// ---------------------------------------------------------------------
// Reply classification and body-line escaping
// ---------------------------------------------------------------------

/// Is this status line positive?  Positive replies begin with `+OK`;
/// anything else is a negative reply carrying an error text.
pub open spec fn is_positive(line: Seq<char>) -> bool {
    line.len() >= 3 && line[0] == '+' && line[1] == 'O' && line[2] == 'K'
}

/// Is this line the lone terminator that ends a multi-line body?
pub open spec fn is_terminator(line: Seq<char>) -> bool {
    line.len() == 1 && line[0] == '.'
}

/// The leading-marker escaping rule, applied on receipt: a body line
/// beginning with the marker has exactly one marker stripped; every
/// other line is kept as it is.
pub open spec fn unstuff(line: Seq<char>) -> Seq<char> {
    if line.len() >= 1 && line[0] == '.' {
        line.drop_first()
    } else {
        line
    }
}

fn check_positive(line: &str) -> (r: bool)
    ensures
        r == is_positive(line@),
{
    let n = line.unicode_len();
    if n < 3 {
        return false;
    }
    line.get_char(0) == '+' && line.get_char(1) == 'O' && line.get_char(2) == 'K'
}

fn check_terminator(line: &str) -> (r: bool)
    ensures
        r == is_terminator(line@),
{
    let n = line.unicode_len();
    n == 1 && line.get_char(0) == '.'
}

fn unstuff_line(line: String) -> (r: String)
    ensures
        r@ == unstuff(line@),
{
    let n = line.as_str().unicode_len();
    if n >= 1 && line.as_str().get_char(0) == '.' {
        let r = String::from_str(line.as_str().substring_char(1, n));
        proof {
            assert(r@ =~= line@.drop_first());
        }
        r
    } else {
        line
    }
}

// ---------------------------------------------------------------------
// The wire text of each command
// ---------------------------------------------------------------------

pub open spec fn user_cmd(user: Seq<char>) -> Seq<char> {
    "USER "@ + user + "\r\n"@
}

pub open spec fn pass_cmd(password: Seq<char>) -> Seq<char> {
    "PASS "@ + password + "\r\n"@
}

pub open spec fn stat_cmd() -> Seq<char> {
    "STAT\r\n"@
}

pub open spec fn list_all_cmd() -> Seq<char> {
    "LIST\r\n"@
}

pub open spec fn list_cmd(message_id: u32) -> Seq<char> {
    "LIST "@ + dec_digits(message_id as int) + "\r\n"@
}

pub open spec fn retr_cmd(message_id: u32) -> Seq<char> {
    "RETR "@ + dec_digits(message_id as int) + "\r\n"@
}

pub open spec fn dele_cmd(message_id: u32) -> Seq<char> {
    "DELE "@ + dec_digits(message_id as int) + "\r\n"@
}

pub open spec fn rset_cmd() -> Seq<char> {
    "RSET\r\n"@
}

pub open spec fn top_cmd(message_id: u32, line_count: u32) -> Seq<char> {
    "TOP "@ + dec_digits(message_id as int) + " "@ + dec_digits(line_count as int) + "\r\n"@
}

pub open spec fn uidl_all_cmd() -> Seq<char> {
    "UIDL\r\n"@
}

pub open spec fn uidl_cmd(message_id: u32) -> Seq<char> {
    "UIDL "@ + dec_digits(message_id as int) + "\r\n"@
}

pub open spec fn quit_cmd() -> Seq<char> {
    "QUIT\r\n"@
}

// ---------------------------------------------------------------------
// Multi-line bodies, as a relation on the available stream
// ---------------------------------------------------------------------

/// The stream yields exactly the body lines `body` (already unescaped),
/// none of which is the terminator, and stands at `post` afterwards.
pub open spec fn body_lines_read(pre: Seq<u8>, post: Seq<u8>, body: Seq<Seq<char>>) -> bool
    decreases body.len(),
{
    if body.len() == 0 {
        post == pre
    } else {
        &&& line_readable(pre)
        &&& !is_terminator(next_line(pre))
        &&& body[0] == unstuff(next_line(pre))
        &&& body_lines_read(rest_of(pre), post, body.drop_first())
    }
}

/// The stream yields the body lines `body` and then the lone terminator
/// line, which is consumed but never part of the body.
pub open spec fn body_read(pre: Seq<u8>, post: Seq<u8>, body: Seq<Seq<char>>) -> bool
    decreases body.len(),
{
    if body.len() == 0 {
        &&& line_readable(pre)
        &&& is_terminator(next_line(pre))
        &&& post == rest_of(pre)
    } else {
        &&& line_readable(pre)
        &&& !is_terminator(next_line(pre))
        &&& body[0] == unstuff(next_line(pre))
        &&& body_read(rest_of(pre), post, body.drop_first())
    }
}

/// The stream holds a complete multi-line body: some lines up to a lone
/// terminator, all within capacity and valid as text.
pub open spec fn holds_body(pre: Seq<u8>) -> bool {
    exists|post: Seq<u8>, body: Seq<Seq<char>>| #[trigger] body_read(pre, post, body)
}

/// Reading the body lines `body` and then one more non-terminator line
/// extends the body by that line, unescaped.
pub proof fn lemma_body_lines_snoc(pre: Seq<u8>, mid: Seq<u8>, post: Seq<u8>, body: Seq<Seq<char>>)
    requires
        body_lines_read(pre, mid, body),
        line_readable(mid),
        !is_terminator(next_line(mid)),
        post == rest_of(mid),
    ensures
        body_lines_read(pre, post, body.push(unstuff(next_line(mid)))),
    decreases body.len(),
{
    let nb = body.push(unstuff(next_line(mid)));
    if body.len() == 0 {
        assert(nb.drop_first() =~~= Seq::<Seq<char>>::empty());
        assert(body_lines_read(rest_of(pre), post, nb.drop_first()));
    } else {
        lemma_body_lines_snoc(rest_of(pre), mid, post, body.drop_first());
        assert(body.drop_first().push(unstuff(next_line(mid))) =~~= nb.drop_first());
    }
}

/// Body lines followed by a terminator line form a complete body.
pub proof fn lemma_body_read_close(pre: Seq<u8>, mid: Seq<u8>, post: Seq<u8>, body: Seq<Seq<char>>)
    requires
        body_lines_read(pre, mid, body),
        line_readable(mid),
        is_terminator(next_line(mid)),
        post == rest_of(mid),
    ensures
        body_read(pre, post, body),
    decreases body.len(),
{
    if body.len() > 0 {
        lemma_body_read_close(rest_of(pre), mid, post, body.drop_first());
    }
}

/// A complete body is read one line at a time: after any prefix of its
/// lines, the stream's next line is still readable.
pub proof fn lemma_body_read_progress(
    pre: Seq<u8>,
    post: Seq<u8>,
    full: Seq<Seq<char>>,
    mid: Seq<u8>,
    partial: Seq<Seq<char>>,
)
    requires
        body_read(pre, post, full),
        body_lines_read(pre, mid, partial),
    ensures
        line_readable(mid),
    decreases partial.len(),
{
    if partial.len() > 0 {
        if full.len() == 0 {
            assert(false);
        } else {
            lemma_body_read_progress(
                rest_of(pre),
                post,
                full.drop_first(),
                mid,
                partial.drop_first(),
            );
        }
    }
}

/// One stream holds at most one complete body.
pub proof fn lemma_body_read_deterministic(
    pre: Seq<u8>,
    post1: Seq<u8>,
    body1: Seq<Seq<char>>,
    post2: Seq<u8>,
    body2: Seq<Seq<char>>,
)
    requires
        body_read(pre, post1, body1),
        body_read(pre, post2, body2),
    ensures
        body1 == body2,
        post1 == post2,
    decreases body1.len(),
{
    if body1.len() == 0 {
        if body2.len() == 0 {
            assert(body1 =~~= body2);
        } else {
            assert(false);
        }
    } else {
        if body2.len() == 0 {
            assert(false);
        } else {
            lemma_body_read_deterministic(
                rest_of(pre),
                post1,
                body1.drop_first(),
                post2,
                body2.drop_first(),
            );
            assert forall|i: int| 0 <= i < body1.len() implies body1[i] == body2[i] by {
                if i > 0 {
                    assert(body1.drop_first()[i - 1] == body1[i]);
                    assert(body2.drop_first()[i - 1] == body2[i]);
                }
            }
            assert(body1 =~= body2);
        }
    }
}

/// The terminator line always ends the body and is never part of it:
/// every line of a complete body arises, by stripping at most one
/// leading marker, from a received line that was not the terminator.
pub proof fn lemma_terminator_never_in_body(
    pre: Seq<u8>,
    post: Seq<u8>,
    body: Seq<Seq<char>>,
    i: int,
)
    requires
        body_read(pre, post, body),
        0 <= i < body.len(),
    ensures
        exists|l: Seq<char>| !is_terminator(l) && body[i] == #[trigger] unstuff(l),
    decreases i,
{
    if i == 0 {
        assert(!is_terminator(next_line(pre)) && body[0] == unstuff(next_line(pre)));
    } else {
        lemma_terminator_never_in_body(rest_of(pre), post, body.drop_first(), i - 1);
        assert forall|l: Seq<char>|
            !is_terminator(l) && body.drop_first()[i - 1] == unstuff(l) implies !is_terminator(l)
            && body[i] == unstuff(l) by {
            assert(body.drop_first()[i - 1] == body[i]);
        }
    }
}

/// The escaping rule, spelled out: a line beginning with the marker
/// loses exactly its first character, and any other line is unchanged.
pub proof fn lemma_unstuff(line: Seq<char>)
    ensures
        line.len() >= 1 && line[0] == '.' ==> unstuff(line) == line.drop_first(),
        !(line.len() >= 1 && line[0] == '.') ==> unstuff(line) == line,
{
}

/// The lines of a body joined into one text, each line followed by a
/// line feed.
pub open spec fn joined_lines(body: Seq<Seq<char>>) -> Seq<char>
    decreases body.len(),
{
    if body.len() == 0 {
        Seq::empty()
    } else {
        body[0] + seq!['\n'] + joined_lines(body.drop_first())
    }
}

/// Joining one more line appends it and a line feed.
pub proof fn lemma_joined_lines_snoc(body: Seq<Seq<char>>, l: Seq<char>)
    ensures
        joined_lines(body.push(l)) == joined_lines(body) + l + seq!['\n'],
    decreases body.len(),
{
    let nb = body.push(l);
    if body.len() == 0 {
        assert(nb.drop_first() =~~= Seq::<Seq<char>>::empty());
        assert(joined_lines(nb) =~= joined_lines(body) + l + seq!['\n']);
    } else {
        lemma_joined_lines_snoc(body.drop_first(), l);
        assert(nb.drop_first() =~~= body.drop_first().push(l));
        assert(nb[0] == body[0]);
        assert(joined_lines(nb) == nb[0] + seq!['\n'] + joined_lines(nb.drop_first()));
        assert(joined_lines(nb) =~= joined_lines(body) + l + seq!['\n']);
    }
}

// ---------------------------------------------------------------------
// Outcomes of the two invocation shapes
// ---------------------------------------------------------------------

/// After a failed command the outgoing stream holds the old text plus
/// some prefix of the one command attempted: at most one attempt, never
/// a second.
pub open spec fn sent_prefix(sent0: Seq<char>, sent1: Seq<char>, cmd: Seq<char>) -> bool {
    exists|k: int| 0 <= k <= cmd.len() && sent1 == sent0 + #[trigger] cmd.take(k)
}

/// A fully sent command is itself a prefix of the one attempt.
proof fn lemma_sent_whole(sent0: Seq<char>, cmd: Seq<char>)
    ensures
        sent_prefix(sent0, sent0 + cmd, cmd),
{
    assert(cmd.take(cmd.len() as int) =~= cmd);
}

/// What a single-line invocation does: on success the command went out
/// whole and the stream's first line, which was positive, is returned;
/// a negative first line is returned whole as a `Protocol` failure.  A
/// stream-level failure consumes nothing of the available stream.  Over
/// a reliable transport the outcome is forced: the command goes out,
/// and a readable first line decides between success and `Protocol`.
pub open spec fn single_line_post(
    pre: Seq<u8>,
    post: Seq<u8>,
    sent0: Seq<char>,
    sent1: Seq<char>,
    cmd: Seq<char>,
    reliable: bool,
    r: Result<String, Pop3Error>,
) -> bool {
    &&& match r {
        Ok(line) => line_read(pre, post, line@) && is_positive(line@) && sent1 == sent0 + cmd,
        Err(e) => match e {
            Pop3Error::Protocol(m) => line_read(pre, post, m@) && !is_positive(m@) && sent1
                == sent0 + cmd,
            Pop3Error::Parse(_) => false,
            _ => post == pre && sent_prefix(sent0, sent1, cmd),
        },
    }
    &&& reliable ==> sent1 == sent0 + cmd
    &&& reliable && line_readable(pre) && is_positive(next_line(pre)) ==> r is Ok
    &&& reliable && line_readable(pre) && !is_positive(next_line(pre)) ==> (r matches Err(
        Pop3Error::Protocol(_),
    ))
}

/// As `single_line_post`, for commands that discard the positive line.
pub open spec fn simple_post(
    pre: Seq<u8>,
    post: Seq<u8>,
    sent0: Seq<char>,
    sent1: Seq<char>,
    cmd: Seq<char>,
    reliable: bool,
    r: Result<(), Pop3Error>,
) -> bool {
    &&& match r {
        Ok(_) => line_readable(pre) && is_positive(next_line(pre)) && post == rest_of(pre)
            && sent1 == sent0 + cmd,
        Err(e) => match e {
            Pop3Error::Protocol(m) => line_read(pre, post, m@) && !is_positive(m@) && sent1
                == sent0 + cmd,
            Pop3Error::Parse(_) => false,
            _ => post == pre && sent_prefix(sent0, sent1, cmd),
        },
    }
    &&& reliable ==> sent1 == sent0 + cmd
    &&& reliable && line_readable(pre) && is_positive(next_line(pre)) ==> r is Ok
    &&& reliable && line_readable(pre) && !is_positive(next_line(pre)) ==> (r matches Err(
        Pop3Error::Protocol(_),
    ))
}

/// What a multi-line invocation does: on success the command went out
/// whole, the first line was positive, and the following lines up to
/// the lone terminator form the returned body, unescaped.  A
/// stream-level failure leaves the stream either untouched or after the
/// positive status line and some prefix of body lines.  Over a reliable
/// transport, a readable negative first line forces `Protocol`, and a
/// positive one followed by a complete body forces success.
pub open spec fn multi_line_post(
    pre: Seq<u8>,
    post: Seq<u8>,
    sent0: Seq<char>,
    sent1: Seq<char>,
    cmd: Seq<char>,
    reliable: bool,
    r: Result<Vec<String>, Pop3Error>,
) -> bool {
    &&& match r {
        Ok(body) => {
            &&& line_readable(pre)
            &&& is_positive(next_line(pre))
            &&& body_read(rest_of(pre), post, body.deep_view())
            &&& sent1 == sent0 + cmd
        },
        Err(e) => match e {
            Pop3Error::Protocol(m) => line_read(pre, post, m@) && !is_positive(m@) && sent1
                == sent0 + cmd,
            Pop3Error::Parse(_) => false,
            _ => sent_prefix(sent0, sent1, cmd) && (post == pre || (line_readable(pre)
                && is_positive(next_line(pre)) && exists|b: Seq<Seq<char>>|
                #[trigger] body_lines_read(rest_of(pre), post, b))),
        },
    }
    &&& reliable ==> sent1 == sent0 + cmd
    &&& reliable && line_readable(pre) && is_positive(next_line(pre)) && holds_body(rest_of(pre))
        ==> r is Ok
    &&& reliable && line_readable(pre) && !is_positive(next_line(pre)) ==> (r matches Err(
        Pop3Error::Protocol(_),
    ))
}

// ---------------------------------------------------------------------
// The session
// ---------------------------------------------------------------------

/// A session over an established transport: owns the transport and the
/// line buffer, and holds no other state.
pub struct Pop3Connection<T: Transport> {
    transport: T,
    reader: LineReader,
}

impl<T: Transport> Pop3Connection<T> {
    /// The bytes buffered by the line reader.
    pub closed spec fn buffered(&self) -> Seq<u8> {
        self.reader@
    }

    /// The bytes the transport will deliver.
    pub closed spec fn incoming(&self) -> Seq<u8> {
        self.transport.incoming()
    }

    /// The available stream: buffered bytes, then incoming bytes.
    pub open spec fn avail(&self) -> Seq<u8> {
        self.buffered() + self.incoming()
    }

    /// The text the session has written to the transport.
    pub closed spec fn sent(&self) -> Seq<char> {
        self.transport.outgoing()
    }

    /// Does the transport promise to deliver and accept on its own?
    pub closed spec fn reliable(&self) -> bool {
        self.transport.reliable()
    }

    /// The line buffer never exceeds its fixed capacity.
    pub open spec fn wf(&self) -> bool {
        self.buffered().len() <= BUFFER_SIZE
    }

    /// Open a session over an established transport: the server's
    /// greeting line is read and must be positive.
    pub fn new(transport: T) -> (r: Result<Pop3Connection<T>, Pop3Error>)
        ensures
            match r {
                Ok(c) => {
                    &&& c.wf()
                    &&& line_readable(transport.incoming())
                    &&& is_positive(next_line(transport.incoming()))
                    &&& c.avail() == rest_of(transport.incoming())
                    &&& c.sent() == transport.outgoing()
                    &&& c.reliable() == transport.reliable()
                },
                Err(e) => match e {
                    Pop3Error::Protocol(m) => line_read(
                        transport.incoming(),
                        rest_of(transport.incoming()),
                        m@,
                    ) && !is_positive(m@),
                    Pop3Error::Parse(_) => false,
                    _ => true,
                },
            },
            transport.reliable() && line_readable(transport.incoming()) && is_positive(
                next_line(transport.incoming()),
            ) ==> r is Ok,
            transport.reliable() && line_readable(transport.incoming()) && !is_positive(
                next_line(transport.incoming()),
            ) ==> (r matches Err(Pop3Error::Protocol(_))),
    {
        let mut client = Pop3Connection { transport, reader: LineReader::new() };
        proof {
            assert(client.avail() =~= client.transport.incoming());
        }
        match client.read_status_line() {
            Ok(_) => Ok(client),
            Err(e) => Err(e),
        }
    }

    /// Read one line and classify it: a positive line is returned, a
    /// negative one becomes a `Protocol` failure carrying the whole
    /// line.
    fn read_status_line(&mut self) -> (r: Result<String, Pop3Error>)
        requires
            old(self).wf(),
        ensures
            final(self).wf(),
            final(self).sent() == old(self).sent(),
            final(self).reliable() == old(self).reliable(),
            match r {
                Ok(line) => line_read(old(self).avail(), final(self).avail(), line@)
                    && is_positive(line@),
                Err(e) => match e {
                    Pop3Error::Protocol(m) => line_read(old(self).avail(), final(self).avail(), m@)
                        && !is_positive(m@),
                    Pop3Error::Parse(_) => false,
                    _ => final(self).avail() == old(self).avail(),
                },
            },
            old(self).reliable() && line_readable(old(self).avail()) && is_positive(
                next_line(old(self).avail()),
            ) ==> r is Ok,
            old(self).reliable() && line_readable(old(self).avail()) && !is_positive(
                next_line(old(self).avail()),
            ) ==> (r matches Err(Pop3Error::Protocol(_))),
    {
        let line = match self.reader.read_line(&mut self.transport) {
            Ok(l) => l,
            Err(e) => {
                return Err(e);
            },
        };
        if check_positive(line.as_str()) {
            Ok(line)
        } else {
            Err(Pop3Error::Protocol(line))
        }
    }

    /// Write one command and read its single status line.
    pub fn invoke_single_line(&mut self, command: &str) -> (r: Result<String, Pop3Error>)
        requires
            old(self).wf(),
        ensures
            final(self).wf(),
            final(self).reliable() == old(self).reliable(),
            single_line_post(
                old(self).avail(),
                final(self).avail(),
                old(self).sent(),
                final(self).sent(),
                command@,
                old(self).reliable(),
                r,
            ),
    {
        match self.transport.write_text(command) {
            Ok(_) => {},
            Err(e) => {
                return Err(e);
            },
        }
        let r = self.read_status_line();
        proof {
            lemma_sent_whole(old(self).sent(), command@);
        }
        r
    }

    /// Write one command, read its status line, and on a positive reply
    /// collect the body lines up to the lone terminator, applying the
    /// leading-marker escaping rule to each.
    pub fn invoke_multi_line(&mut self, command: &str) -> (r: Result<Vec<String>, Pop3Error>)
        requires
            old(self).wf(),
        ensures
            final(self).wf(),
            final(self).reliable() == old(self).reliable(),
            multi_line_post(
                old(self).avail(),
                final(self).avail(),
                old(self).sent(),
                final(self).sent(),
                command@,
                old(self).reliable(),
                r,
            ),
    {
        let ghost pre = old(self).avail();
        match self.transport.write_text(command) {
            Ok(_) => {},
            Err(e) => {
                return Err(e);
            },
        }
        let _status = match self.read_status_line() {
            Ok(s) => s,
            Err(e) => {
                proof {
                    lemma_sent_whole(old(self).sent(), command@);
                }
                return Err(e);
            },
        };
        let ghost mid0 = self.avail();
        let ghost sentm = self.sent();
        let mut response: Vec<String> = Vec::new();
        proof {
            assert(response.deep_view() =~~= Seq::<Seq<char>>::empty());
        }
        loop
            invariant
                self.wf(),
                pre == old(self).avail(),
                line_readable(pre),
                is_positive(next_line(pre)),
                mid0 == rest_of(pre),
                self.sent() == sentm,
                sentm == old(self).sent() + command@,
                self.reliable() == old(self).reliable(),
                body_lines_read(mid0, self.avail(), response.deep_view()),
            decreases self.avail().len(),
        {
            let ghost a0 = self.avail();
            let line = match self.reader.read_line(&mut self.transport) {
                Ok(l) => l,
                Err(e) => {
                    proof {
                        lemma_sent_whole(old(self).sent(), command@);
                        assert(body_lines_read(rest_of(pre), self.avail(), response.deep_view()));
                        if old(self).reliable() && holds_body(mid0) {
                            let (post1, body1) = choose|post1: Seq<u8>, body1: Seq<Seq<char>>|
                                #[trigger] body_read(mid0, post1, body1);
                            lemma_body_read_progress(mid0, post1, body1, a0, response.deep_view());
                            assert(false);
                        }
                    }
                    return Err(e);
                },
            };
            proof {
                crate::line_reader::lemma_eol_index(a0);
            }
            if check_terminator(line.as_str()) {
                proof {
                    lemma_body_read_close(mid0, a0, self.avail(), response.deep_view());
                }
                return Ok(response);
            }
            let unstuffed = unstuff_line(line);
            let ghost prev = response.deep_view();
            response.push(unstuffed);
            proof {
                assert(response.deep_view() =~~= prev.push(unstuffed@));
                lemma_body_lines_snoc(mid0, a0, self.avail(), prev);
            }
        }
    }

    /// Send the termination command once; the server's answer, positive
    /// or not, only matters to the caller.  Automatic disposal is left
    /// to an owner outside the verified library: a wrapper's drop hook
    /// calls this once and discards the result.
    pub fn quit(&mut self) -> (r: Result<(), Pop3Error>)
        requires
            old(self).wf(),
        ensures
            final(self).wf(),
            final(self).reliable() == old(self).reliable(),
            simple_post(
                old(self).avail(),
                final(self).avail(),
                old(self).sent(),
                final(self).sent(),
                quit_cmd(),
                old(self).reliable(),
                r,
            ),
    {
        match self.invoke_single_line("QUIT\r\n") {
            Ok(_) => Ok(()),
            Err(e) => Err(e),
        }
    }

    /// Authenticate with a user name and a password: two single-line
    /// invocations in sequence; the password command is sent only after
    /// a positive reply to the user command, and either failure aborts
    /// the login.
    pub fn login(&mut self, user: &str, password: &str) -> (r: Result<(), Pop3Error>)
        requires
            old(self).wf(),
        ensures
            final(self).wf(),
            final(self).reliable() == old(self).reliable(),
            match r {
                Ok(_) => {
                    &&& line_readable(old(self).avail())
                    &&& is_positive(next_line(old(self).avail()))
                    &&& line_readable(rest_of(old(self).avail()))
                    &&& is_positive(next_line(rest_of(old(self).avail())))
                    &&& final(self).avail() == rest_of(rest_of(old(self).avail()))
                    &&& final(self).sent() == old(self).sent() + user_cmd(user@) + pass_cmd(
                        password@,
                    )
                },
                Err(e) => match e {
                    Pop3Error::Protocol(m) => !is_positive(m@) && {
                        ||| (line_read(old(self).avail(), final(self).avail(), m@)
                            && final(self).sent() == old(self).sent() + user_cmd(user@))
                        ||| (line_readable(old(self).avail()) && is_positive(
                            next_line(old(self).avail()),
                        ) && line_read(rest_of(old(self).avail()), final(self).avail(), m@)
                            && final(self).sent() == old(self).sent() + user_cmd(user@)
                            + pass_cmd(password@))
                    },
                    Pop3Error::Parse(_) => false,
                    _ => {
                        &&& (final(self).avail() == old(self).avail() || (line_readable(
                            old(self).avail(),
                        ) && is_positive(next_line(old(self).avail())) && final(self).avail()
                            == rest_of(old(self).avail())))
                        &&& (sent_prefix(old(self).sent(), final(self).sent(), user_cmd(user@))
                            || sent_prefix(
                            old(self).sent() + user_cmd(user@),
                            final(self).sent(),
                            pass_cmd(password@),
                        ))
                    },
                },
            },
            old(self).reliable() && line_readable(old(self).avail()) && !is_positive(
                next_line(old(self).avail()),
            ) ==> (r matches Err(Pop3Error::Protocol(_))),
            old(self).reliable() && line_readable(old(self).avail()) && is_positive(
                next_line(old(self).avail()),
            ) && line_readable(rest_of(old(self).avail())) && is_positive(
                next_line(rest_of(old(self).avail())),
            ) ==> r is Ok,
            old(self).reliable() && line_readable(old(self).avail()) && is_positive(
                next_line(old(self).avail()),
            ) && line_readable(rest_of(old(self).avail())) && !is_positive(
                next_line(rest_of(old(self).avail())),
            ) ==> (r matches Err(Pop3Error::Protocol(_))),
    {
        let cmd = command_user(user);
        match self.invoke_single_line(cmd.as_str()) {
            Ok(_) => {},
            Err(e) => {
                return Err(e);
            },
        }
        let cmd = command_pass(password);
        match self.invoke_single_line(cmd.as_str()) {
            Ok(_) => {},
            Err(e) => {
                return Err(e);
            },
        }
        Ok(())
    }

    /// Maildrop statistics: message count and total size, from the
    /// second and third field of the `STAT` reply.
    pub fn stat(&mut self) -> (r: Result<Pop3Stat, Pop3Error>)
        requires
            old(self).wf(),
        ensures
            final(self).wf(),
            final(self).reliable() == old(self).reliable(),
            match r {
                Ok(st) => {
                    &&& line_readable(old(self).avail())
                    &&& is_positive(next_line(old(self).avail()))
                    &&& final(self).avail() == rest_of(old(self).avail())
                    &&& stat_of(next_line(old(self).avail())) == Some(
                        (st.message_count, st.maildrop_size),
                    )
                    &&& final(self).sent() == old(self).sent() + stat_cmd()
                },
                Err(e) => match e {
                    Pop3Error::Protocol(m) => line_read(old(self).avail(), final(self).avail(), m@)
                        && !is_positive(m@) && final(self).sent() == old(self).sent() + stat_cmd(),
                    Pop3Error::Parse(m) => {
                        &&& line_readable(old(self).avail())
                        &&& is_positive(next_line(old(self).avail()))
                        &&& final(self).avail() == rest_of(old(self).avail())
                        &&& stat_of(next_line(old(self).avail())) is None
                        &&& m@ == stat_err_of(next_line(old(self).avail()))
                        &&& final(self).sent() == old(self).sent() + stat_cmd()
                    },
                    _ => final(self).avail() == old(self).avail() && sent_prefix(
                        old(self).sent(),
                        final(self).sent(),
                        stat_cmd(),
                    ),
                },
            },
            old(self).reliable() ==> final(self).sent() == old(self).sent() + stat_cmd(),
            old(self).reliable() && line_readable(old(self).avail()) && is_positive(
                next_line(old(self).avail()),
            ) ==> (if stat_of(next_line(old(self).avail())) is Some {
                r is Ok
            } else {
                r matches Err(Pop3Error::Parse(_))
            }),
            old(self).reliable() && line_readable(old(self).avail()) && !is_positive(
                next_line(old(self).avail()),
            ) ==> (r matches Err(Pop3Error::Protocol(_))),
    {
        let line = match self.invoke_single_line("STAT\r\n") {
            Ok(l) => l,
            Err(e) => {
                return Err(e);
            },
        };
        match parse_stat_line(line.as_str()) {
            Ok(st) => Ok(st),
            Err(e) => Err(e),
        }
    }

    /// The size of one message, from the third field of the `LIST <id>`
    /// reply.
    pub fn get_message_size(&mut self, message_id: u32) -> (r: Result<u32, Pop3Error>)
        requires
            old(self).wf(),
        ensures
            final(self).wf(),
            final(self).reliable() == old(self).reliable(),
            match r {
                Ok(size) => {
                    &&& line_readable(old(self).avail())
                    &&& is_positive(next_line(old(self).avail()))
                    &&& final(self).avail() == rest_of(old(self).avail())
                    &&& size_of_reply(next_line(old(self).avail())) == Some(size)
                    &&& final(self).sent() == old(self).sent() + list_cmd(message_id)
                },
                Err(e) => match e {
                    Pop3Error::Protocol(m) => line_read(old(self).avail(), final(self).avail(), m@)
                        && !is_positive(m@) && final(self).sent() == old(self).sent() + list_cmd(
                        message_id,
                    ),
                    Pop3Error::Parse(m) => {
                        &&& line_readable(old(self).avail())
                        &&& is_positive(next_line(old(self).avail()))
                        &&& final(self).avail() == rest_of(old(self).avail())
                        &&& size_of_reply(next_line(old(self).avail())) is None
                        &&& m@ == size_err_of(next_line(old(self).avail()))
                        &&& final(self).sent() == old(self).sent() + list_cmd(message_id)
                    },
                    _ => final(self).avail() == old(self).avail() && sent_prefix(
                        old(self).sent(),
                        final(self).sent(),
                        list_cmd(message_id),
                    ),
                },
            },
            old(self).reliable() ==> final(self).sent() == old(self).sent() + list_cmd(message_id),
            old(self).reliable() && line_readable(old(self).avail()) && is_positive(
                next_line(old(self).avail()),
            ) ==> (if size_of_reply(next_line(old(self).avail())) is Some {
                r is Ok
            } else {
                r matches Err(Pop3Error::Parse(_))
            }),
            old(self).reliable() && line_readable(old(self).avail()) && !is_positive(
                next_line(old(self).avail()),
            ) ==> (r matches Err(Pop3Error::Protocol(_))),
    {
        let cmd = command_list(message_id);
        let line = match self.invoke_single_line(cmd.as_str()) {
            Ok(l) => l,
            Err(e) => {
                return Err(e);
            },
        };
        match parse_message_size_line(line.as_str()) {
            Ok(size) => Ok(size),
            Err(e) => Err(e),
        }
    }

    /// The unique-id token of one message, from the third field of the
    /// `UIDL <id>` reply.
    pub fn get_unique_id(&mut self, message_id: u32) -> (r: Result<String, Pop3Error>)
        requires
            old(self).wf(),
        ensures
            final(self).wf(),
            final(self).reliable() == old(self).reliable(),
            match r {
                Ok(uid) => {
                    &&& line_readable(old(self).avail())
                    &&& is_positive(next_line(old(self).avail()))
                    &&& final(self).avail() == rest_of(old(self).avail())
                    &&& uid_of_reply(next_line(old(self).avail())) == Some(uid@)
                    &&& final(self).sent() == old(self).sent() + uidl_cmd(message_id)
                },
                Err(e) => match e {
                    Pop3Error::Protocol(m) => line_read(old(self).avail(), final(self).avail(), m@)
                        && !is_positive(m@) && final(self).sent() == old(self).sent() + uidl_cmd(
                        message_id,
                    ),
                    Pop3Error::Parse(m) => {
                        &&& line_readable(old(self).avail())
                        &&& is_positive(next_line(old(self).avail()))
                        &&& final(self).avail() == rest_of(old(self).avail())
                        &&& uid_of_reply(next_line(old(self).avail())) is None
                        &&& m@ == uid_reply_err_of(next_line(old(self).avail()))
                        &&& final(self).sent() == old(self).sent() + uidl_cmd(message_id)
                    },
                    _ => final(self).avail() == old(self).avail() && sent_prefix(
                        old(self).sent(),
                        final(self).sent(),
                        uidl_cmd(message_id),
                    ),
                },
            },
            old(self).reliable() ==> final(self).sent() == old(self).sent() + uidl_cmd(message_id),
            old(self).reliable() && line_readable(old(self).avail()) && is_positive(
                next_line(old(self).avail()),
            ) ==> (if uid_of_reply(next_line(old(self).avail())) is Some {
                r is Ok
            } else {
                r matches Err(Pop3Error::Parse(_))
            }),
            old(self).reliable() && line_readable(old(self).avail()) && !is_positive(
                next_line(old(self).avail()),
            ) ==> (r matches Err(Pop3Error::Protocol(_))),
    {
        let cmd = command_uidl(message_id);
        let line = match self.invoke_single_line(cmd.as_str()) {
            Ok(l) => l,
            Err(e) => {
                return Err(e);
            },
        };
        match parse_unique_id_line(line.as_str()) {
            Ok(uid) => Ok(uid),
            Err(e) => Err(e),
        }
    }

    /// Mark one message as deleted.
    pub fn delete(&mut self, message_id: u32) -> (r: Result<(), Pop3Error>)
        requires
            old(self).wf(),
        ensures
            final(self).wf(),
            final(self).reliable() == old(self).reliable(),
            simple_post(
                old(self).avail(),
                final(self).avail(),
                old(self).sent(),
                final(self).sent(),
                dele_cmd(message_id),
                old(self).reliable(),
                r,
            ),
    {
        let cmd = command_dele(message_id);
        match self.invoke_single_line(cmd.as_str()) {
            Ok(_) => Ok(()),
            Err(e) => Err(e),
        }
    }

    /// Unmark any messages marked as deleted.
    pub fn reset(&mut self) -> (r: Result<(), Pop3Error>)
        requires
            old(self).wf(),
        ensures
            final(self).wf(),
            final(self).reliable() == old(self).reliable(),
            simple_post(
                old(self).avail(),
                final(self).avail(),
                old(self).sent(),
                final(self).sent(),
                rset_cmd(),
                old(self).reliable(),
                r,
            ),
    {
        match self.invoke_single_line("RSET\r\n") {
            Ok(_) => Ok(()),
            Err(e) => Err(e),
        }
    }

    /// Id and size of every message, one `LIST` body line each.
    pub fn list(&mut self) -> (r: Result<Vec<Pop3MessageInfo>, Pop3Error>)
        requires
            old(self).wf(),
        ensures
            final(self).wf(),
            final(self).reliable() == old(self).reliable(),
            match r {
                Ok(infos) => {
                    &&& exists|body: Seq<Seq<char>>|
                        {
                            &&& line_readable(old(self).avail())
                            &&& is_positive(next_line(old(self).avail()))
                            &&& #[trigger] body_read(
                                rest_of(old(self).avail()),
                                final(self).avail(),
                                body,
                            )
                            &&& infos@.len() == body.len()
                            &&& forall|i: int|
                                0 <= i < body.len() ==> info_of(body[i]) == Some(
                                    (infos@[i].message_id, infos@[i].message_size),
                                )
                        }
                    &&& final(self).sent() == old(self).sent() + list_all_cmd()
                },
                Err(e) => match e {
                    Pop3Error::Protocol(m) => line_read(old(self).avail(), final(self).avail(), m@)
                        && !is_positive(m@) && final(self).sent() == old(self).sent()
                        + list_all_cmd(),
                    Pop3Error::Parse(_) => {
                        &&& exists|body: Seq<Seq<char>>|
                            {
                                &&& line_readable(old(self).avail())
                                &&& is_positive(next_line(old(self).avail()))
                                &&& #[trigger] body_read(
                                    rest_of(old(self).avail()),
                                    final(self).avail(),
                                    body,
                                )
                                &&& exists|i: int|
                                    0 <= i < body.len() && info_of(#[trigger] body[i]) is None
                            }
                        &&& final(self).sent() == old(self).sent() + list_all_cmd()
                    },
                    _ => sent_prefix(old(self).sent(), final(self).sent(), list_all_cmd()) && (
                    final(self).avail() == old(self).avail() || (line_readable(old(self).avail())
                        && is_positive(next_line(old(self).avail())) && exists|b: Seq<Seq<char>>|
                        #[trigger] body_lines_read(
                            rest_of(old(self).avail()),
                            final(self).avail(),
                            b,
                        ))),
                },
            },
            old(self).reliable() ==> final(self).sent() == old(self).sent() + list_all_cmd(),
            old(self).reliable() && line_readable(old(self).avail()) && is_positive(
                next_line(old(self).avail()),
            ) && holds_body(rest_of(old(self).avail())) && (forall|p1: Seq<u8>, b1: Seq<Seq<char>>|
                #[trigger] body_read(rest_of(old(self).avail()), p1, b1) ==> forall|i: int|
                    0 <= i < b1.len() ==> info_of(#[trigger] b1[i]) is Some) ==> r is Ok,
            old(self).reliable() && line_readable(old(self).avail()) && !is_positive(
                next_line(old(self).avail()),
            ) ==> (r matches Err(Pop3Error::Protocol(_))),
    {
        let ghost pre = old(self).avail();
        let lines = match self.invoke_multi_line("LIST\r\n") {
            Ok(b) => b,
            Err(e) => {
                return Err(e);
            },
        };
        let mut result: Vec<Pop3MessageInfo> = Vec::new();
        let mut idx: usize = 0;
        while idx < lines.len()
            invariant
                idx <= lines@.len(),
                self.wf(),
                pre == old(self).avail(),
                line_readable(pre),
                is_positive(next_line(pre)),
                self.sent() == old(self).sent() + list_all_cmd(),
                self.reliable() == old(self).reliable(),
                body_read(rest_of(pre), self.avail(), lines.deep_view()),
                result@.len() == idx,
                forall|i: int|
                    0 <= i < idx ==> info_of(lines@[i]@) == Some(
                        (result@[i].message_id, result@[i].message_size),
                    ),
            decreases lines@.len() - idx,
        {
            let info = match parse_info_line(lines[idx].as_str()) {
                Ok(v) => v,
                Err(e) => {
                    proof {
                        assert(lines.deep_view()[idx as int] == lines@[idx as int]@);
                    }
                    return Err(e);
                },
            };
            result.push(info);
            idx = idx + 1;
        }
        proof {
            assert forall|i: int| 0 <= i < lines.deep_view().len() implies info_of(
                lines.deep_view()[i],
            ) == Some((result@[i].message_id, result@[i].message_size)) by {
                assert(lines.deep_view()[i] == lines@[i]@);
            }
        }
        Ok(result)
    }

    /// Unique id of every message, one `UIDL` body line each.
    pub fn list_unique_ids(&mut self) -> (r: Result<Vec<Pop3MessageUidInfo>, Pop3Error>)
        requires
            old(self).wf(),
        ensures
            final(self).wf(),
            final(self).reliable() == old(self).reliable(),
            match r {
                Ok(infos) => {
                    &&& exists|body: Seq<Seq<char>>|
                        {
                            &&& line_readable(old(self).avail())
                            &&& is_positive(next_line(old(self).avail()))
                            &&& #[trigger] body_read(
                                rest_of(old(self).avail()),
                                final(self).avail(),
                                body,
                            )
                            &&& infos@.len() == body.len()
                            &&& forall|i: int|
                                0 <= i < body.len() ==> uid_info_of(body[i]) == Some(
                                    (infos@[i].message_id, infos@[i].unique_id@),
                                )
                        }
                    &&& final(self).sent() == old(self).sent() + uidl_all_cmd()
                },
                Err(e) => match e {
                    Pop3Error::Protocol(m) => line_read(old(self).avail(), final(self).avail(), m@)
                        && !is_positive(m@) && final(self).sent() == old(self).sent()
                        + uidl_all_cmd(),
                    Pop3Error::Parse(_) => {
                        &&& exists|body: Seq<Seq<char>>|
                            {
                                &&& line_readable(old(self).avail())
                                &&& is_positive(next_line(old(self).avail()))
                                &&& #[trigger] body_read(
                                    rest_of(old(self).avail()),
                                    final(self).avail(),
                                    body,
                                )
                                &&& exists|i: int|
                                    0 <= i < body.len() && uid_info_of(#[trigger] body[i]) is None
                            }
                        &&& final(self).sent() == old(self).sent() + uidl_all_cmd()
                    },
                    _ => sent_prefix(old(self).sent(), final(self).sent(), uidl_all_cmd()) && (
                    final(self).avail() == old(self).avail() || (line_readable(old(self).avail())
                        && is_positive(next_line(old(self).avail())) && exists|b: Seq<Seq<char>>|
                        #[trigger] body_lines_read(
                            rest_of(old(self).avail()),
                            final(self).avail(),
                            b,
                        ))),
                },
            },
            old(self).reliable() ==> final(self).sent() == old(self).sent() + uidl_all_cmd(),
            old(self).reliable() && line_readable(old(self).avail()) && is_positive(
                next_line(old(self).avail()),
            ) && holds_body(rest_of(old(self).avail())) && (forall|p1: Seq<u8>, b1: Seq<Seq<char>>|
                #[trigger] body_read(rest_of(old(self).avail()), p1, b1) ==> forall|i: int|
                    0 <= i < b1.len() ==> uid_info_of(#[trigger] b1[i]) is Some) ==> r is Ok,
            old(self).reliable() && line_readable(old(self).avail()) && !is_positive(
                next_line(old(self).avail()),
            ) ==> (r matches Err(Pop3Error::Protocol(_))),
    {
        let ghost pre = old(self).avail();
        let lines = match self.invoke_multi_line("UIDL\r\n") {
            Ok(b) => b,
            Err(e) => {
                return Err(e);
            },
        };
        let mut result: Vec<Pop3MessageUidInfo> = Vec::new();
        let mut idx: usize = 0;
        while idx < lines.len()
            invariant
                idx <= lines@.len(),
                self.wf(),
                pre == old(self).avail(),
                line_readable(pre),
                is_positive(next_line(pre)),
                self.sent() == old(self).sent() + uidl_all_cmd(),
                self.reliable() == old(self).reliable(),
                body_read(rest_of(pre), self.avail(), lines.deep_view()),
                result@.len() == idx,
                forall|i: int|
                    0 <= i < idx ==> uid_info_of(lines@[i]@) == Some(
                        (result@[i].message_id, result@[i].unique_id@),
                    ),
            decreases lines@.len() - idx,
        {
            let info = match parse_uid_info_line(lines[idx].as_str()) {
                Ok(v) => v,
                Err(e) => {
                    proof {
                        assert(lines.deep_view()[idx as int] == lines@[idx as int]@);
                    }
                    return Err(e);
                },
            };
            result.push(info);
            idx = idx + 1;
        }
        proof {
            assert forall|i: int| 0 <= i < lines.deep_view().len() implies uid_info_of(
                lines.deep_view()[i],
            ) == Some((result@[i].message_id, result@[i].unique_id@)) by {
                assert(lines.deep_view()[i] == lines@[i]@);
            }
        }
        Ok(result)
    }

    /// Download one message: every body line is handed to the sink,
    /// each followed by a line feed.
    pub fn retrieve<W: MessageSink>(
        &mut self,
        message_id: u32,
        writer: &mut W,
    ) -> (r: Result<(), Pop3Error>)
        requires
            old(self).wf(),
        ensures
            final(self).wf(),
            final(self).reliable() == old(self).reliable(),
            final(writer).reliable() == old(writer).reliable(),
            match r {
                Ok(_) => {
                    &&& exists|body: Seq<Seq<char>>|
                        {
                            &&& line_readable(old(self).avail())
                            &&& is_positive(next_line(old(self).avail()))
                            &&& #[trigger] body_read(
                                rest_of(old(self).avail()),
                                final(self).avail(),
                                body,
                            )
                            &&& final(writer).received() == old(writer).received()
                                + joined_lines(body)
                        }
                    &&& final(self).sent() == old(self).sent() + retr_cmd(message_id)
                },
                Err(e) => match e {
                    Pop3Error::Protocol(m) => line_read(old(self).avail(), final(self).avail(), m@)
                        && !is_positive(m@) && final(self).sent() == old(self).sent() + retr_cmd(
                        message_id,
                    ) && final(writer).received() == old(writer).received(),
                    Pop3Error::Parse(_) => false,
                    _ => sent_prefix(
                        old(self).sent(),
                        final(self).sent(),
                        retr_cmd(message_id),
                    ) && (final(self).avail() == old(self).avail() || (line_readable(
                        old(self).avail(),
                    ) && is_positive(next_line(old(self).avail())) && ((exists|b: Seq<Seq<char>>|
                        #[trigger] body_lines_read(
                            rest_of(old(self).avail()),
                            final(self).avail(),
                            b,
                        )) || (exists|b: Seq<Seq<char>>|
                        #[trigger] body_read(
                            rest_of(old(self).avail()),
                            final(self).avail(),
                            b,
                        ))))),
                },
            },
            (r matches Err(Pop3Error::Decode) || r matches Err(Pop3Error::BufferExceeded) || (r
                matches Err(Pop3Error::Protocol(_))) ==> final(writer).received() == old(
                writer,
            ).received()),
            (r matches Err(Pop3Error::Transport(_)) ==> final(writer).received() == old(
                writer,
            ).received() || (exists|body: Seq<Seq<char>>|
                #[trigger] body_read(rest_of(old(self).avail()), final(self).avail(), body)
                    && exists|k: int|
                    0 <= k <= body.len() && (final(writer).received() == old(writer).received()
                        + #[trigger] joined_lines(body.take(k)) || (k < body.len()
                        && exists|j: int|
                        0 <= j <= body[k].len() && final(writer).received() == old(
                        writer,
                    ).received() + joined_lines(body.take(k)) + #[trigger] body[k].take(j))))),
            old(self).reliable() ==> final(self).sent() == old(self).sent() + retr_cmd(message_id),
            old(self).reliable() && old(writer).reliable() && line_readable(old(self).avail())
                && is_positive(next_line(old(self).avail())) && holds_body(
                rest_of(old(self).avail()),
            ) ==> r is Ok,
            old(self).reliable() && line_readable(old(self).avail()) && !is_positive(
                next_line(old(self).avail()),
            ) ==> (r matches Err(Pop3Error::Protocol(_))),
    {
        let ghost pre = old(self).avail();
        let cmd = command_retr(message_id);
        let lines = match self.invoke_multi_line(cmd.as_str()) {
            Ok(b) => b,
            Err(e) => {
                return Err(e);
            },
        };
        let mut idx: usize = 0;
        proof {
            assert(lines.deep_view().take(0) =~~= Seq::<Seq<char>>::empty());
            assert(old(writer).received() + joined_lines(lines.deep_view().take(0)) =~= old(
                writer,
            ).received());
        }
        while idx < lines.len()
            invariant
                idx <= lines@.len(),
                self.wf(),
                pre == old(self).avail(),
                line_readable(pre),
                is_positive(next_line(pre)),
                self.sent() == old(self).sent() + retr_cmd(message_id),
                self.reliable() == old(self).reliable(),
                writer.reliable() == old(writer).reliable(),
                body_read(rest_of(pre), self.avail(), lines.deep_view()),
                writer.received() == old(writer).received() + joined_lines(
                    lines.deep_view().take(idx as int),
                ),
            decreases lines@.len() - idx,
        {
            let ghost got = writer.received();
            match writer.accept(lines[idx].as_str()) {
                Ok(_) => {},
                Err(e) => {
                    proof {
                        lemma_sent_whole(old(self).sent(), retr_cmd(message_id));
                        let body = lines.deep_view();
                        assert(body[idx as int] == lines@[idx as int]@);
                        let kp = choose|kp: int|
                            0 <= kp <= lines@[idx as int]@.len() && writer.received() == got
                                + #[trigger] lines@[idx as int]@.take(kp);
                        assert(writer.received() == old(writer).received() + joined_lines(
                            body.take(idx as int),
                        ) + body[idx as int].take(kp));
                    }
                    return Err(e);
                },
            }
            let ghost mid_recv = writer.received();
            match writer.accept("\n") {
                Ok(_) => {},
                Err(e) => {
                    proof {
                        lemma_sent_whole(old(self).sent(), retr_cmd(message_id));
                        reveal_strlit("\n");
                        let body = lines.deep_view();
                        assert(body[idx as int] == lines@[idx as int]@);
                        let kp = choose|kp: int|
                            0 <= kp <= "\n"@.len() && writer.received() == mid_recv
                                + #[trigger] "\n"@.take(kp);
                        if kp == 0 {
                            assert("\n"@.take(0) =~= Seq::<char>::empty());
                            assert(writer.received() =~= old(writer).received() + joined_lines(
                                body.take(idx as int),
                            ) + body[idx as int]);
                            assert(body[idx as int].take(body[idx as int].len() as int) =~= body[
                                idx as int
                            ]);
                            assert(writer.received() == old(writer).received() + joined_lines(
                                body.take(idx as int),
                            ) + body[idx as int].take(body[idx as int].len() as int));
                        } else {
                            assert("\n"@.take(kp) =~= seq!['\n']);
                            lemma_joined_lines_snoc(body.take(idx as int), body[idx as int]);
                            assert(body.take(idx as int).push(body[idx as int]) =~~= body.take(
                                idx + 1,
                            ));
                            assert(writer.received() =~= old(writer).received() + joined_lines(
                                body.take(idx + 1),
                            ));
                        }
                    }
                    return Err(e);
                },
            }
            proof {
                reveal_strlit("\n");
                lemma_joined_lines_snoc(lines.deep_view().take(idx as int), lines@[idx as int]@);
                assert(lines.deep_view().take(idx as int).push(lines@[idx as int]@) =~~= lines
                    .deep_view()
                    .take(idx + 1));
                assert(writer.received() =~= old(writer).received() + joined_lines(
                    lines.deep_view().take(idx + 1),
                ));
            }
            idx = idx + 1;
        }
        proof {
            assert(lines.deep_view().take(lines@.len() as int) =~~= lines.deep_view());
        }
        Ok(())
    }

    /// The header and the first `line_count` lines of one message, the
    /// body lines joined with a line feed after each.
    pub fn top(&mut self, message_id: u32, line_count: u32) -> (r: Result<String, Pop3Error>)
        requires
            old(self).wf(),
        ensures
            final(self).wf(),
            final(self).reliable() == old(self).reliable(),
            match r {
                Ok(text) => {
                    &&& exists|body: Seq<Seq<char>>|
                        {
                            &&& line_readable(old(self).avail())
                            &&& is_positive(next_line(old(self).avail()))
                            &&& #[trigger] body_read(
                                rest_of(old(self).avail()),
                                final(self).avail(),
                                body,
                            )
                            &&& text@ == joined_lines(body)
                        }
                    &&& final(self).sent() == old(self).sent() + top_cmd(message_id, line_count)
                },
                Err(e) => match e {
                    Pop3Error::Protocol(m) => line_read(old(self).avail(), final(self).avail(), m@)
                        && !is_positive(m@) && final(self).sent() == old(self).sent() + top_cmd(
                        message_id,
                        line_count,
                    ),
                    Pop3Error::Parse(_) => false,
                    _ => sent_prefix(
                        old(self).sent(),
                        final(self).sent(),
                        top_cmd(message_id, line_count),
                    ) && (final(self).avail() == old(self).avail() || (line_readable(
                        old(self).avail(),
                    ) && is_positive(next_line(old(self).avail())) && exists|b: Seq<Seq<char>>|
                        #[trigger] body_lines_read(
                            rest_of(old(self).avail()),
                            final(self).avail(),
                            b,
                        ))),
                },
            },
            old(self).reliable() ==> final(self).sent() == old(self).sent() + top_cmd(
                message_id,
                line_count,
            ),
            old(self).reliable() && line_readable(old(self).avail()) && is_positive(
                next_line(old(self).avail()),
            ) && holds_body(rest_of(old(self).avail())) ==> r is Ok,
            old(self).reliable() && line_readable(old(self).avail()) && !is_positive(
                next_line(old(self).avail()),
            ) ==> (r matches Err(Pop3Error::Protocol(_))),
    {
        let cmd = command_top(message_id, line_count);
        let lines = match self.invoke_multi_line(cmd.as_str()) {
            Ok(b) => b,
            Err(e) => {
                return Err(e);
            },
        };
        let mut message = String::new();
        let mut idx: usize = 0;
        proof {
            assert(lines.deep_view().take(0) =~~= Seq::<Seq<char>>::empty());
        }
        while idx < lines.len()
            invariant
                idx <= lines@.len(),
                message@ == joined_lines(lines.deep_view().take(idx as int)),
            decreases lines@.len() - idx,
        {
            message.append(lines[idx].as_str());
            message.append("\n");
            proof {
                reveal_strlit("\n");
                lemma_joined_lines_snoc(lines.deep_view().take(idx as int), lines@[idx as int]@);
                assert(lines.deep_view().take(idx as int).push(lines@[idx as int]@) =~~= lines
                    .deep_view()
                    .take(idx + 1));
                assert(message@ =~= joined_lines(lines.deep_view().take(idx + 1)));
            }
            idx = idx + 1;
        }
        proof {
            assert(lines.deep_view().take(lines@.len() as int) =~~= lines.deep_view());
        }
        Ok(message)
    }
}

// ---------------------------------------------------------------------
// Command formatting
// ---------------------------------------------------------------------

/// The wire form of the authentication user command.
pub fn command_user(user: &str) -> (r: String)
    ensures
        r@ == user_cmd(user@),
{
    let mut s = String::from_str("USER ");
    s.append(user);
    s.append("\r\n");
    s
}

/// The wire form of the authentication password command.
pub fn command_pass(password: &str) -> (r: String)
    ensures
        r@ == pass_cmd(password@),
{
    let mut s = String::from_str("PASS ");
    s.append(password);
    s.append("\r\n");
    s
}

/// The wire form of the one-message listing command.
pub fn command_list(message_id: u32) -> (r: String)
    ensures
        r@ == list_cmd(message_id),
{
    let mut s = String::from_str("LIST ");
    s.append(u32_to_dec(message_id).as_str());
    s.append("\r\n");
    s
}

/// The wire form of the message download command.
pub fn command_retr(message_id: u32) -> (r: String)
    ensures
        r@ == retr_cmd(message_id),
{
    let mut s = String::from_str("RETR ");
    s.append(u32_to_dec(message_id).as_str());
    s.append("\r\n");
    s
}

/// The wire form of the message deletion command.
pub fn command_dele(message_id: u32) -> (r: String)
    ensures
        r@ == dele_cmd(message_id),
{
    let mut s = String::from_str("DELE ");
    s.append(u32_to_dec(message_id).as_str());
    s.append("\r\n");
    s
}

/// The wire form of the message heading command.
pub fn command_top(message_id: u32, line_count: u32) -> (r: String)
    ensures
        r@ == top_cmd(message_id, line_count),
{
    let mut s = String::from_str("TOP ");
    s.append(u32_to_dec(message_id).as_str());
    s.append(" ");
    s.append(u32_to_dec(line_count).as_str());
    s.append("\r\n");
    s
}

/// The wire form of the one-message unique-id command.
pub fn command_uidl(message_id: u32) -> (r: String)
    ensures
        r@ == uidl_cmd(message_id),
{
    let mut s = String::from_str("UIDL ");
    s.append(u32_to_dec(message_id).as_str());
    s.append("\r\n");
    s
}

} // verus!
