//! The transport boundary: an abstract, already-connected, bidirectional
//! byte stream, plus an output sink for downloaded message text.
//!
//! The library never opens sockets itself; a caller supplies a
//! [`Transport`] implementation (for instance over a TLS stream).  For
//! tests and offline use, [`ScriptedTransport`] replays a fixed byte
//! script and records what is written to it.

use vstd::prelude::*;
use vstd::string::*;

use crate::Pop3Error;

verus! {

/// A blocking byte stream: replies are read from it as raw bytes and
/// commands are written to it as text.
///
/// Both directions are modelled by ghost streams: [`Transport::incoming`]
/// holds the bytes the transport will deliver, in order, and
/// [`Transport::outgoing`] the text written so far.  A *reliable*
/// transport ([`Transport::reliable`]) is one whose operations do not
/// fail on their own: reads succeed while incoming bytes remain and
/// writes always succeed.  Contracts conditioned on reliability promise
/// success; an ordinary network transport is not reliable and promises
/// only the shape of each outcome.
///
/// An implementation outside the verified library must uphold the
/// method contracts itself: each successful read hands out the next
/// bytes of the incoming stream, between one and `max` of them; a
/// stream with nothing left to deliver (closed by the peer) reports a
/// transport failure instead of an empty read; a successful write
/// appends exactly its text to the outgoing stream; and failures of
/// either method are reported as `Pop3Error::Transport`.
pub trait Transport {
    /// The bytes the incoming stream will deliver, in order.
    open spec fn incoming(&self) -> Seq<u8> {
        arbitrary()
    }

    /// The text written to the outgoing stream so far.
    open spec fn outgoing(&self) -> Seq<char> {
        arbitrary()
    }

    /// Do reads and writes succeed as long as the incoming stream has
    /// bytes left?  False for an ordinary network transport.
    open spec fn reliable(&self) -> bool {
        false
    }

    /// One blocking read: between one and `max` of the next incoming
    /// bytes.
    fn read_some(&mut self, max: usize) -> (r: Result<Vec<u8>, Pop3Error>)
        requires
            max >= 1,
        ensures
            (r matches Ok(chunk) ==> 1 <= chunk@.len() <= max
                && chunk@.len() <= old(self).incoming().len()
                && chunk@ == old(self).incoming().take(chunk@.len() as int)
                && final(self).incoming() == old(self).incoming().skip(chunk@.len() as int)),
            (r matches Err(e) ==> e is Transport),
            r is Err ==> final(self).incoming() == old(self).incoming(),
            final(self).outgoing() == old(self).outgoing(),
            final(self).reliable() == old(self).reliable(),
            old(self).reliable() && old(self).incoming().len() > 0 ==> r is Ok,
    ;

    /// Write the whole of `data` to the outgoing stream.
    fn write_text(&mut self, data: &str) -> (r: Result<(), Pop3Error>)
        ensures
            (r matches Err(e) ==> e is Transport),
            r is Ok ==> final(self).outgoing() == old(self).outgoing() + data@,
            r is Err ==> exists|k: int|
                0 <= k <= data@.len() && final(self).outgoing() == old(self).outgoing()
                    + data@.take(k),
            final(self).incoming() == old(self).incoming(),
            final(self).reliable() == old(self).reliable(),
            old(self).reliable() ==> r is Ok,
    ;
}

/// A sink for retrieved message text, written line by line.
///
/// The text accepted so far is modelled by the ghost stream
/// [`MessageSink::received`].  An implementation outside the verified
/// library must append exactly what it accepts and report failures as
/// `Pop3Error::Transport`.
pub trait MessageSink {
    /// The text accepted so far.
    open spec fn received(&self) -> Seq<char> {
        arbitrary()
    }

    /// Does accepting text always succeed?  False for a sink over real
    /// output.
    open spec fn reliable(&self) -> bool {
        false
    }

    /// Accept the next piece of message text.
    fn accept(&mut self, data: &str) -> (r: Result<(), Pop3Error>)
        ensures
            (r matches Err(e) ==> e is Transport),
            r is Ok ==> final(self).received() == old(self).received() + data@,
            r is Err ==> exists|k: int|
                0 <= k <= data@.len() && final(self).received() == old(self).received()
                    + data@.take(k),
            final(self).reliable() == old(self).reliable(),
            old(self).reliable() ==> r is Ok,
    ;
}

/// A sink that collects the accepted message text in memory.
pub struct StringSink {
    /// everything accepted so far
    pub content: String,
}

impl StringSink {
    /// An empty sink.
    pub fn new() -> (r: StringSink)
        ensures
            r.content@ == Seq::<char>::empty(),
            r.received() == Seq::<char>::empty(),
            r.reliable(),
    {
        StringSink { content: String::new() }
    }
}

impl MessageSink for StringSink {
    /// The collected text.
    open spec fn received(&self) -> Seq<char> {
        self.content@
    }

    /// Collecting in memory cannot fail.
    open spec fn reliable(&self) -> bool {
        true
    }

    fn accept(&mut self, data: &str) -> (r: Result<(), Pop3Error>)
        ensures
            r is Ok,
            final(self).content@ == old(self).content@ + data@,
    {
        self.content.append(data);
        Ok(())
    }
}

/// A transport that replays a fixed incoming byte script and records
/// what is written to it.  Each read hands out at most `chunk` bytes,
/// so a script can be delivered to the reader in chosen pieces.  It is
/// reliable: reads succeed until the script is exhausted and writes
/// always succeed.
pub struct ScriptedTransport {
    /// the incoming bytes
    script: Vec<u8>,
    /// how far into the script reads have progressed
    cursor: usize,
    /// largest piece one read hands out
    chunk: usize,
    /// everything written so far
    written: String,
}

impl ScriptedTransport {
    /// A transport whose reads deliver `script`, at most `chunk` bytes at
    /// a time.
    pub fn new(script: Vec<u8>, chunk: usize) -> (r: ScriptedTransport)
        ensures
            r.incoming() == script@,
            r.outgoing() == Seq::<char>::empty(),
            r.reliable(),
    {
        let r = ScriptedTransport { script, cursor: 0, chunk, written: String::new() };
        proof {
            assert(r.incoming() =~= r.script@);
        }
        r
    }

    /// The text written so far.
    pub fn written(&self) -> (r: &str)
        ensures
            r@ == self.outgoing(),
    {
        self.written.as_str()
    }
}

impl Transport for ScriptedTransport {
    /// The unread tail of the script.
    closed spec fn incoming(&self) -> Seq<u8> {
        if self.cursor <= self.script@.len() {
            self.script@.skip(self.cursor as int)
        } else {
            Seq::empty()
        }
    }

    /// The recorded writes.
    closed spec fn outgoing(&self) -> Seq<char> {
        self.written@
    }

    /// Scripted reads and recorded writes cannot fail while bytes
    /// remain.
    closed spec fn reliable(&self) -> bool {
        true
    }

    fn read_some(&mut self, max: usize) -> (r: Result<Vec<u8>, Pop3Error>)
        ensures
            r is Err <==> old(self).incoming().len() == 0,
    {
        if self.cursor >= self.script.len() {
            return Err(Pop3Error::Transport(String::from_str("script exhausted")));
        }
        let mut cap: usize = if self.chunk < 1 {
            1
        } else {
            self.chunk
        };
        if max < cap {
            cap = max;
        }
        let slen = self.script.len();
        let avail = slen - self.cursor;
        let take: usize = if cap < avail {
            cap
        } else {
            avail
        };
        let mut out: Vec<u8> = Vec::new();
        let mut t: usize = 0;
        while t < take
            invariant
                t <= take,
                slen == self.script@.len(),
                take + old(self).cursor <= self.script@.len(),
                self.script@ == old(self).script@,
                self.chunk == old(self).chunk,
                self.written == old(self).written,
                self.cursor == old(self).cursor + t,
                out@ == self.script@.subrange(old(self).cursor as int, self.cursor as int),
            decreases take - t,
        {
            out.push(self.script[self.cursor]);
            self.cursor = self.cursor + 1;
            t = t + 1;
            proof {
                assert(out@ =~= self.script@.subrange(
                    old(self).cursor as int,
                    self.cursor as int,
                ));
            }
        }
        proof {
            assert(out@ =~= old(self).incoming().take(out@.len() as int));
            assert(self.incoming() =~= old(self).incoming().skip(out@.len() as int));
        }
        Ok(out)
    }

    fn write_text(&mut self, data: &str) -> (r: Result<(), Pop3Error>) {
        self.written.append(data);
        Ok(())
    }
}

} // verus!
