//! Line framing: accumulating bytes from a blocking source into a
//! fixed-capacity buffer and yielding one decoded, trimmed line at a time.
//!
//! The specification model lives here too: a byte stream is cut at each
//! newline byte; the bytes before the first newline, decoded as text and
//! trimmed of surrounding whitespace characters, form the next line, and
//! the bytes after it are kept for later calls.

use vstd::prelude::*;

verus! {

/// Fixed capacity of the line buffer: no single protocol line, terminator
/// included, may be longer than this.
pub const BUFFER_SIZE: usize = 512;

/// The line-terminator byte (line feed).
pub const EOL: u8 = 0x0a;

// ---------------------------------------------------------------------
// Specification model of a byte stream cut into lines
// ---------------------------------------------------------------------

/// The Unicode White_Space characters, trimmed from both ends of a
/// decoded line: the ASCII controls and space, next line, no-break
/// space, ogham space mark, the en-quad..hair-space range, the line and
/// paragraph separators, narrow no-break space, medium mathematical
/// space and ideographic space.
pub open spec fn is_white_space(c: char) -> bool {
    let v = c as u32;
    ||| (0x09 <= v && v <= 0x0d)
    ||| v == 0x20
    ||| v == 0x85
    ||| v == 0xa0
    ||| v == 0x1680
    ||| (0x2000 <= v && v <= 0x200a)
    ||| v == 0x2028
    ||| v == 0x2029
    ||| v == 0x202f
    ||| v == 0x205f
    ||| v == 0x3000
}

/// Index of the first line-terminator byte, or `s.len()` if there is none.
pub open spec fn eol_index(s: Seq<u8>) -> int
    decreases s.len(),
{
    if s.len() == 0 {
        0
    } else if s[0] == EOL {
        0
    } else {
        1 + eol_index(s.drop_first())
    }
}

/// Does the stream hold a complete line, that is, a terminator byte?
pub open spec fn contains_eol(s: Seq<u8>) -> bool {
    eol_index(s) < s.len()
}

/// The leading whitespace of `s` removed.
pub open spec fn trim_front(s: Seq<char>) -> Seq<char>
    decreases s.len(),
{
    if s.len() > 0 && is_white_space(s[0]) {
        trim_front(s.drop_first())
    } else {
        s
    }
}

/// The trailing whitespace of `s` removed.
pub open spec fn trim_back(s: Seq<char>) -> Seq<char>
    decreases s.len(),
{
    if s.len() > 0 && is_white_space(s.last()) {
        trim_back(s.drop_last())
    } else {
        s
    }
}

/// Surrounding whitespace removed from both ends.
pub open spec fn trim_chars(s: Seq<char>) -> Seq<char> {
    trim_back(trim_front(s))
}

/// The raw (untrimmed) content of the first line of the stream.
pub open spec fn first_line_content(s: Seq<u8>) -> Seq<u8>
    recommends
        contains_eol(s),
{
    s.take(eol_index(s))
}

/// What remains of the stream once the first line and its terminator are
/// consumed.
pub open spec fn rest_of(s: Seq<u8>) -> Seq<u8>
    recommends
        contains_eol(s),
{
    s.skip(eol_index(s) + 1)
}

// ---------------------------------------------------------------------
// Basic facts about the model
// ---------------------------------------------------------------------

/// `eol_index` points at the first terminator: it is in bounds exactly
/// when one exists, no terminator comes before it, and it holds one when
/// in bounds.
pub proof fn lemma_eol_index(s: Seq<u8>)
    ensures
        0 <= eol_index(s) <= s.len(),
        contains_eol(s) ==> s[eol_index(s)] == EOL,
        forall|k: int| 0 <= k < eol_index(s) ==> s[k] != EOL,
    decreases s.len(),
{
    if s.len() == 0 {
    } else if s[0] == EOL {
    } else {
        lemma_eol_index(s.drop_first());
        assert forall|k: int| 0 <= k < eol_index(s) implies s[k] != EOL by {
            if k > 0 {
                assert(s.drop_first()[k - 1] == s[k]);
            }
        }
    }
}

/// A scan that found a terminator at `i`, with none before it, found
/// `eol_index`.
proof fn lemma_eol_index_of_witness(s: Seq<u8>, i: int)
    requires
        0 <= i < s.len(),
        s[i] == EOL,
        forall|k: int| 0 <= k < i ==> s[k] != EOL,
    ensures
        eol_index(s) == i,
{
    lemma_eol_index(s);
    if eol_index(s) < i {
        assert(s[eol_index(s)] == EOL);
    }
}

/// Appending bytes to a stream that already holds a terminator changes
/// neither its first line nor the terminator's position, and the
/// remainder gains exactly the appended bytes.
proof fn lemma_eol_append(a: Seq<u8>, b: Seq<u8>)
    requires
        contains_eol(a),
    ensures
        contains_eol(a + b),
        eol_index(a + b) == eol_index(a),
        first_line_content(a + b) == first_line_content(a),
        rest_of(a + b) == rest_of(a) + b,
{
    lemma_eol_index(a);
    let ab = a + b;
    assert(ab[eol_index(a)] == EOL);
    assert forall|k: int| 0 <= k < eol_index(a) implies ab[k] != EOL by {
        assert(ab[k] == a[k]);
    }
    lemma_eol_index_of_witness(ab, eol_index(a));
    assert(first_line_content(ab) =~= first_line_content(a));
    assert(rest_of(ab) =~= rest_of(a) + b);
}

/// A terminator within the first `n` bytes is found in the truncated
/// stream at the same position, and conversely.
proof fn lemma_eol_take(s: Seq<u8>, n: int)
    requires
        0 <= n <= s.len(),
    ensures
        contains_eol(s) && eol_index(s) < n ==> contains_eol(s.take(n)) && eol_index(s.take(n))
            == eol_index(s),
        contains_eol(s.take(n)) ==> contains_eol(s) && eol_index(s) == eol_index(s.take(n)),
{
    lemma_eol_index(s);
    lemma_eol_index(s.take(n));
    if contains_eol(s) && eol_index(s) < n {
        lemma_eol_index_of_witness(s.take(n), eol_index(s));
    }
    if contains_eol(s.take(n)) {
        lemma_eol_index_of_witness(s, eol_index(s.take(n)));
    }
}

/// A prefix that holds a terminator decides the whole stream's first
/// terminator.
proof fn lemma_eol_prefix(a: Seq<u8>, b: Seq<u8>)
    requires
        a.is_prefix_of(b),
        contains_eol(a),
    ensures
        contains_eol(b),
        eol_index(b) == eol_index(a),
{
    let suffix = b.skip(a.len() as int);
    assert(b =~= a + suffix);
    lemma_eol_append(a, suffix);
}

/// Dropping leading whitespace up to the first non-whitespace character
/// (or the end) is exactly `trim_front`.
proof fn lemma_trim_front_skip(s: Seq<char>, i: int)
    requires
        0 <= i <= s.len(),
        forall|k: int| 0 <= k < i ==> is_white_space(s[k]),
        i == s.len() || !is_white_space(s[i]),
    ensures
        trim_front(s) == s.skip(i),
    decreases i,
{
    if i == 0 {
        assert(s.skip(0) =~= s);
    } else {
        assert(is_white_space(s[0]));
        lemma_trim_front_skip(s.drop_first(), i - 1);
        assert(s.drop_first().skip(i - 1) =~= s.skip(i));
    }
}

/// Dropping trailing whitespace back to the last non-whitespace
/// character (or the start) is exactly `trim_back`.
proof fn lemma_trim_back_take(s: Seq<char>, j: int)
    requires
        0 <= j <= s.len(),
        forall|k: int| j <= k < s.len() ==> is_white_space(s[k]),
        j == 0 || !is_white_space(s[j - 1]),
    ensures
        trim_back(s) == s.take(j),
    decreases s.len(),
{
    if j == s.len() {
        assert(s.take(j) =~= s);
    } else {
        assert(is_white_space(s.last()));
        lemma_trim_back_take(s.drop_last(), j);
        assert(s.drop_last().take(j) =~= s.take(j));
    }
}

// ---------------------------------------------------------------------
// Cutting a whole stream into lines, and chunk-boundary independence
// ---------------------------------------------------------------------

/// All complete lines of the stream, in order: each is the raw content
/// before one terminator.
pub open spec fn lines_of(s: Seq<u8>) -> Seq<Seq<u8>>
    decreases s.len(),
    via lines_of_dec
{
    if contains_eol(s) {
        seq![first_line_content(s)] + lines_of(rest_of(s))
    } else {
        Seq::empty()
    }
}

#[via_fn]
proof fn lines_of_dec(s: Seq<u8>) {
    lemma_eol_index(s);
}

/// The incomplete tail of the stream: whatever follows its last
/// terminator.
pub open spec fn leftover_of(s: Seq<u8>) -> Seq<u8>
    decreases s.len(),
    via leftover_of_dec
{
    if contains_eol(s) {
        leftover_of(rest_of(s))
    } else {
        s
    }
}

#[via_fn]
proof fn leftover_of_dec(s: Seq<u8>) {
    lemma_eol_index(s);
}

/// Chunk-boundary independence: a stream split at any point yields the
/// same lines as the whole — processing chunk `a` first, and then its
/// incomplete leftover together with chunk `b`, yields what one pass
/// over `a + b` yields.  So the lines a reader returns do not depend on
/// how the input was cut into reads.
pub proof fn lemma_chunk_boundary_independence(a: Seq<u8>, b: Seq<u8>)
    ensures
        lines_of(a + b) == lines_of(a) + lines_of(leftover_of(a) + b),
        leftover_of(a + b) == leftover_of(leftover_of(a) + b),
    decreases a.len(),
{
    if !contains_eol(a) {
        assert(leftover_of(a) == a);
        assert(lines_of(a) + lines_of(a + b) =~= lines_of(a + b));
    } else {
        lemma_eol_index(a);
        lemma_eol_append(a, b);
        assert(first_line_content(a + b) == first_line_content(a));
        lemma_chunk_boundary_independence(rest_of(a), b);
        assert(lines_of(a + b) =~= lines_of(a) + lines_of(leftover_of(a) + b));
    }
}

// ---------------------------------------------------------------------
// What one call of the reader does to the available stream
// ---------------------------------------------------------------------
//
// The available stream of a reader and its transport is the buffered
// bytes followed by whatever the transport will deliver.  One call of
// `read_line` consumes the first line of that stream, so its contract is
// a relation between the stream before and after the call.

/// The first line of the stream can be yielded: a terminator arrives
/// within the buffer capacity and the line content is valid text.
pub open spec fn line_readable(s: Seq<u8>) -> bool {
    &&& contains_eol(s)
    &&& eol_index(s) < BUFFER_SIZE
    &&& vstd::utf8::valid_utf8(first_line_content(s))
}

/// The text of the stream's first line: its raw content decoded, then
/// trimmed of surrounding whitespace characters.
pub open spec fn next_line(s: Seq<u8>) -> Seq<char> {
    trim_chars(vstd::utf8::decode_utf8(first_line_content(s)))
}

/// One line was read: the stream's first line was yieldable, decoded to
/// `line`, and the stream advanced past its terminator.
pub open spec fn line_read(pre: Seq<u8>, post: Seq<u8>, line: Seq<char>) -> bool {
    &&& line_readable(pre)
    &&& line == next_line(pre)
    &&& post == rest_of(pre)
}

/// The capacity boundary: a line that fills the whole buffer without a
/// terminator can never be yielded — no terminator within the first
/// `BUFFER_SIZE` bytes means no line is readable — while a line of
/// `BUFFER_SIZE - 1` bytes followed by its terminator sits within
/// capacity and, if its content is valid text, is readable.
pub proof fn lemma_capacity_boundary(s: Seq<u8>)
    ensures
        s.len() >= BUFFER_SIZE && !contains_eol(s.take(BUFFER_SIZE as int)) ==> !line_readable(s),
        (BUFFER_SIZE - 1 < s.len() && s[BUFFER_SIZE - 1] == EOL && (forall|k: int|
            0 <= k < BUFFER_SIZE - 1 ==> s[k] != EOL) && vstd::utf8::valid_utf8(
            first_line_content(s),
        )) ==> line_readable(s),
{
    lemma_eol_index(s);
    if s.len() >= BUFFER_SIZE && !contains_eol(s.take(BUFFER_SIZE as int)) {
        if eol_index(s) < BUFFER_SIZE {
            let t = s.take(BUFFER_SIZE as int);
            assert(t[eol_index(s)] == EOL);
            lemma_eol_index(t);
            assert(t[eol_index(t)] == EOL);
        }
    }
    if BUFFER_SIZE - 1 < s.len() && s[BUFFER_SIZE - 1] == EOL && (forall|k: int|
        0 <= k < BUFFER_SIZE - 1 ==> s[k] != EOL) {
        lemma_eol_index_of_witness(s, BUFFER_SIZE - 1);
    }
}

/// The outcomes `read_line` owes, beyond the shape of each result.
/// Whatever the transport does, a terminator already buffered rules out
/// transport and capacity failures, and a buffer already full without
/// one forces the capacity failure.  Over a reliable transport the
/// outcome is decided entirely by the available stream: a readable
/// first line is returned; a terminator within capacity but invalid
/// text fails to decode; no terminator within capacity exceeds the
/// buffer; and a stream that ends before a terminator is a transport
/// failure.
pub open spec fn read_line_forced(
    buffered: Seq<u8>,
    pre: Seq<u8>,
    reliable: bool,
    r: Result<String, crate::Pop3Error>,
) -> bool {
    &&& contains_eol(buffered) ==> !(r matches Err(crate::Pop3Error::Transport(_))) && !(r
        matches Err(crate::Pop3Error::BufferExceeded))
    &&& buffered.len() >= BUFFER_SIZE && !contains_eol(buffered) ==> (r matches Err(
        crate::Pop3Error::BufferExceeded,
    ))
    &&& reliable ==> {
        &&& (line_readable(pre) ==> r is Ok)
        &&& (contains_eol(pre) && eol_index(pre) < BUFFER_SIZE && !vstd::utf8::valid_utf8(
            first_line_content(pre),
        ) ==> (r matches Err(crate::Pop3Error::Decode)))
        &&& (pre.len() >= BUFFER_SIZE && !contains_eol(pre.take(BUFFER_SIZE as int)) ==> (r
            matches Err(crate::Pop3Error::BufferExceeded)))
        &&& (!contains_eol(pre) && pre.len() < BUFFER_SIZE ==> (r matches Err(
            crate::Pop3Error::Transport(_),
        )))
    }
}

/// Everything `read_line` may do, by outcome, as a relation between the
/// available stream before and after the call: a decoded line, or one of
/// the stream-level failures, which consume nothing.
pub open spec fn read_line_post(
    pre: Seq<u8>,
    post: Seq<u8>,
    r: Result<String, crate::Pop3Error>,
) -> bool {
    match r {
        Ok(line) => line_read(pre, post, line@),
        Err(e) => match e {
            crate::Pop3Error::BufferExceeded => {
                &&& post == pre
                &&& pre.len() >= BUFFER_SIZE
                &&& !contains_eol(pre.take(BUFFER_SIZE as int))
            },
            crate::Pop3Error::Decode => {
                &&& post == pre
                &&& contains_eol(pre)
                &&& eol_index(pre) < BUFFER_SIZE
                &&& !vstd::utf8::valid_utf8(first_line_content(pre))
            },
            crate::Pop3Error::Transport(_) => post == pre,
            crate::Pop3Error::Protocol(_) => false,
            crate::Pop3Error::Parse(_) => false,
        },
    }
}

// ---------------------------------------------------------------------
// The reader itself
// ---------------------------------------------------------------------

/// Accumulates bytes from a transport and yields one decoded line per
/// call, keeping any bytes past the consumed terminator for later calls.
pub struct LineReader {
    buffer: Vec<u8>,
}

impl View for LineReader {
    type V = Seq<u8>;

    closed spec fn view(&self) -> Seq<u8> {
        self.buffer@
    }
}

/// Relies on std::str::from_utf8: it succeeds exactly on valid UTF-8 and
/// decodes the bytes to their character sequence.
#[verifier::external_body]
fn decode_utf8_bytes(v: &[u8]) -> (r: Option<String>)
    ensures
        r is Some <==> vstd::utf8::valid_utf8(v@),
        r matches Some(s) ==> s@ == vstd::utf8::decode_utf8(v@),
{
    match std::str::from_utf8(v) {
        Ok(s) => Some(s.to_string()),
        Err(_) => None,
    }
}

/// Is `c` one of the whitespace characters trimmed from line ends?
fn is_ws_char(c: char) -> (r: bool)
    ensures
        r == is_white_space(c),
{
    let v: u32 = c as u32;
    (0x09 <= v && v <= 0x0d) || v == 0x20 || v == 0x85 || v == 0xa0 || v == 0x1680 || (0x2000 <= v
        && v <= 0x200a) || v == 0x2028 || v == 0x2029 || v == 0x202f || v == 0x205f || v == 0x3000
}

/// The surrounding whitespace characters of a decoded line removed.
fn trim_line(line: String) -> (r: String)
    ensures
        r@ == trim_chars(line@),
{
    let n = line.as_str().unicode_len();
    let mut lo: usize = 0;
    while lo < n && is_ws_char(line.as_str().get_char(lo))
        invariant
            lo <= n,
            n == line@.len(),
            forall|m: int| 0 <= m < lo ==> is_white_space(line@[m]),
        decreases n - lo,
    {
        lo = lo + 1;
    }
    let mut hi: usize = n;
    while hi > lo && is_ws_char(line.as_str().get_char(hi - 1))
        invariant
            lo <= hi <= n,
            n == line@.len(),
            forall|m: int| 0 <= m < lo ==> is_white_space(line@[m]),
            forall|m: int| hi <= m < n ==> is_white_space(line@[m]),
        decreases hi,
    {
        hi = hi - 1;
    }
    let r = String::from_str(line.as_str().substring_char(lo, hi));
    proof {
        lemma_trim_front_skip(line@, lo as int);
        lemma_trim_back_take(line@.skip(lo as int), hi - lo);
        assert(line@.skip(lo as int).take(hi - lo) =~= line@.subrange(lo as int, hi as int));
        assert(r@ == trim_chars(line@));
    }
    r
}

impl LineReader {
    /// The buffer never holds more than its fixed capacity.
    pub open spec fn wf(&self) -> bool {
        self@.len() <= BUFFER_SIZE
    }

    /// A fresh reader with an empty buffer.
    pub fn new() -> (r: LineReader)
        ensures
            r.wf(),
            r@ == Seq::<u8>::empty(),
    {
        let r = LineReader { buffer: Vec::new() };
        proof {
            assert(r@ =~= Seq::<u8>::empty());
        }
        r
    }

    /// Position of the first line terminator in the buffered bytes, if
    /// one is buffered.
    pub fn get_eol(&self) -> (r: Option<usize>)
        ensures
            match r {
                Some(i) => contains_eol(self@) && i == eol_index(self@),
                None => !contains_eol(self@),
            },
    {
        let n = self.buffer.len();
        let mut i: usize = 0;
        while i < n
            invariant
                i <= n,
                n == self.buffer@.len(),
                forall|k: int| 0 <= k < i ==> self.buffer@[k] != EOL,
            decreases n - i,
        {
            if self.buffer[i] == EOL {
                proof {
                    lemma_eol_index_of_witness(self.buffer@, i as int);
                }
                return Some(i);
            }
            i = i + 1;
        }
        proof {
            lemma_eol_index(self.buffer@);
            if contains_eol(self.buffer@) {
                assert(self.buffer@[eol_index(self.buffer@)] == EOL);
            }
        }
        None
    }

    /// The next complete decoded line, reading from `source` as needed.
    ///
    /// Bytes are accumulated until the buffer holds a terminator; a line
    /// that cannot fit the fixed capacity is a `BufferExceeded` failure.
    /// The bytes before the first terminator are decoded as text and
    /// trimmed of surrounding whitespace characters; the bytes after it
    /// stay buffered for the next call, so nothing is lost or duplicated
    /// across calls.
    pub fn read_line<T: crate::transport::Transport>(
        &mut self,
        source: &mut T,
    ) -> (r: Result<String, crate::Pop3Error>)
        requires
            old(self).wf(),
        ensures
            final(self).wf(),
            read_line_post(
                old(self)@ + old(source).incoming(),
                final(self)@ + final(source).incoming(),
                r,
            ),
            read_line_forced(
                old(self)@,
                old(self)@ + old(source).incoming(),
                old(source).reliable(),
                r,
            ),
            final(source).outgoing() == old(source).outgoing(),
            final(source).reliable() == old(source).reliable(),
    {
        let ghost pre = old(self)@ + old(source).incoming();
        loop
            invariant
                self.buffer@.len() <= BUFFER_SIZE,
                self.buffer@ + source.incoming() == pre,
                pre == old(self)@ + old(source).incoming(),
                old(self)@.is_prefix_of(self.buffer@),
                source.outgoing() == old(source).outgoing(),
                source.reliable() == old(source).reliable(),
            decreases source.incoming().len(),
        {
            let k = match self.get_eol() {
                Some(k) => k,
                None => {
                    if self.buffer.len() >= BUFFER_SIZE {
                        proof {
                            assert(self.buffer@ =~= pre.take(BUFFER_SIZE as int));
                            if contains_eol(old(self)@) {
                                lemma_eol_prefix(old(self)@, self.buffer@);
                            }
                            lemma_eol_take(pre, BUFFER_SIZE as int);
                        }
                        return Err(crate::Pop3Error::BufferExceeded);
                    }
                    let want: usize = BUFFER_SIZE - self.buffer.len();
                    let ghost before = self.buffer@;
                    let ghost instream = source.incoming();
                    let mut chunk = match source.read_some(want) {
                        Ok(c) => c,
                        Err(e) => {
                            proof {
                                assert(self.buffer@ + source.incoming() =~= pre);
                                if contains_eol(old(self)@) {
                                    lemma_eol_prefix(old(self)@, self.buffer@);
                                }
                                if old(source).reliable() {
                                    assert(pre =~= self.buffer@);
                                }
                            }
                            return Err(e);
                        },
                    };
                    let ghost c = chunk@;
                    self.buffer.append(&mut chunk);
                    proof {
                        assert(self.buffer@ + source.incoming() =~= pre) by {
                            assert(self.buffer@ =~= before + c);
                            assert(c + source.incoming() =~= instream);
                            assert((before + c) + source.incoming() =~= before + instream);
                        }
                        assert(old(self)@.is_prefix_of(self.buffer@)) by {
                            assert(self.buffer@.take(old(self)@.len() as int) =~= old(self)@);
                        }
                    }
                    continue;
                },
            };
            // a terminator is buffered at position k: cut the line out
            let ghost total = self.buffer@;
            proof {
                lemma_eol_index(total);
                lemma_eol_append(total, source.incoming());
                assert(total + source.incoming() == pre);
                if old(self)@.len() >= BUFFER_SIZE {
                    assert(old(self)@ =~= self.buffer@);
                }
                if pre.len() >= BUFFER_SIZE {
                    lemma_eol_take(pre, BUFFER_SIZE as int);
                }
            }
            // copy the raw content [0, k), decode it, then trim it
            let mut line_bytes: Vec<u8> = Vec::new();
            let mut i: usize = 0;
            while i < k
                invariant
                    i <= k,
                    k < self.buffer@.len(),
                    self.buffer@ == total,
                    line_bytes@ == total.subrange(0, i as int),
                decreases k - i,
            {
                line_bytes.push(self.buffer[i]);
                proof {
                    assert(line_bytes@ =~= total.subrange(0, i + 1));
                }
                i = i + 1;
            }
            proof {
                assert(line_bytes@ =~= first_line_content(total));
            }
            let decoded = match decode_utf8_bytes(line_bytes.as_slice()) {
                Some(s) => s,
                None => {
                    proof {
                        assert(first_line_content(pre) == first_line_content(total));
                    }
                    return Err(crate::Pop3Error::Decode);
                },
            };
            let line = trim_line(decoded);
            // drop the consumed line and its terminator, keep the rest
            let mut rest: Vec<u8> = Vec::new();
            let mut j: usize = k + 1;
            let n = self.buffer.len();
            while j < n
                invariant
                    k + 1 <= j <= n,
                    n == self.buffer@.len(),
                    self.buffer@ == total,
                    rest@ == total.subrange(k + 1, j as int),
                decreases n - j,
            {
                rest.push(self.buffer[j]);
                proof {
                    assert(rest@ =~= total.subrange(k + 1, j + 1));
                }
                j = j + 1;
            }
            self.buffer = rest;
            proof {
                assert(self.buffer@ =~= rest_of(total));
                assert(self.buffer@ + source.incoming() =~= rest_of(pre));
                assert(line_read(pre, self.buffer@ + source.incoming(), line@));
            }
            return Ok(line);
        }
    }
}

} // verus!
