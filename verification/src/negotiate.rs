//! The multistream-select negotiation engine, initiator side.
//!
//! The engine is a state machine over decoded lines: the caller writes the
//! byte buffers the engine hands out, reads and decodes one line at a time,
//! and feeds each line back in. All I/O stays with the caller, so the engine
//! works over any transport.

use vstd::prelude::*;

use vstd::string::StringExecFns;
use vstd::utf8::encode_utf8;

use crate::Error;
use crate::line::lemma_encode_utf8_len;
use crate::line::line_encoding;
use crate::line::serialise_varint_line;

verus! {

/// The characters of the fixed multistream protocol version identifier.
pub open spec fn version_chars() -> Seq<char> {
    "/multistream/1.0.0"@
}

/// The characters of the fixed rejection token.
pub open spec fn na_chars() -> Seq<char> {
    "na"@
}

/// The byte length of a candidate line would overflow the varint domain.
pub open spec fn line_too_long(chars: Seq<char>) -> bool {
    encode_utf8(chars).len() + 1 > u64::MAX
}

/// The fixed multistream protocol version identifier.
pub fn multistream_protocol() -> (r: &'static str)
    ensures
        r@ == version_chars(),
{
    "/multistream/1.0.0"
}

/// The fixed two-character token by which a responder rejects a candidate.
pub fn na_token() -> (r: &'static str)
    ensures
        r@ == na_chars(),
{
    "na"
}

/// What the caller must do next after feeding a response line to the engine.
pub enum Step {
    /// Read and decode another line from the stream.
    Read,
    /// Write these bytes to the stream, then read and decode another line.
    Send(Vec<u8>),
    /// Negotiation succeeded with the candidate at this index.
    Selected(usize),
    /// Every candidate was cleanly rejected; there is no common protocol.
    NoMatch,
    /// The peer broke the protocol or a candidate could not be framed;
    /// negotiation is over.
    Fail(Error),
}

/// Initiator-side negotiation state: the ordered candidate list, the index
/// of the candidate currently proposed, and where in the handshake we stand.
pub struct Negotiator {
    candidates: Vec<String>,
    next_index: usize,
    version_pending: bool,
    done: bool,
}

impl Negotiator {
    /// The ordered candidate protocol identifiers, most preferred first.
    pub closed spec fn protocols(self) -> Seq<Seq<char>> {
        self.candidates.deep_view()
    }

    /// Index of the candidate currently proposed to the peer.
    pub closed spec fn current(self) -> int {
        self.next_index as int
    }

    /// The engine still awaits the peer's protocol-version echo.
    pub closed spec fn awaiting_version(self) -> bool {
        self.version_pending
    }

    /// The engine has reached a terminal state and takes no more lines.
    pub closed spec fn finished(self) -> bool {
        self.done
    }

    /// Internal consistency: candidates exist, the current index stays in
    /// range while running, and the version echo is only ever pending before
    /// the first reply.
    pub closed spec fn inv(self) -> bool {
        &&& self.candidates@.len() > 0
        &&& !self.done ==> (self.next_index as int) < self.candidates@.len()
        &&& self.version_pending ==> self.next_index == 0
    }

    /// Begin a negotiation over `candidates`: returns the engine together
    /// with the opening message — the version line and the first candidate
    /// line, batched so one write carries both.
    ///
    /// Fails with `EmptyCandidateList` on an empty candidate list, before any
    /// byte is produced, and with `InvalidLineLength` when the first
    /// candidate line cannot be framed.
    pub fn new(candidates: Vec<String>) -> (r: Result<(Negotiator, Vec<u8>), Error>)
        ensures
            candidates@.len() == 0 ==> r == Err::<(Negotiator, Vec<u8>), Error>(
                Error::EmptyCandidateList,
            ),
            candidates@.len() > 0 && line_too_long(candidates.deep_view()[0]) ==> r == Err::<
                (Negotiator, Vec<u8>),
                Error,
            >(Error::InvalidLineLength),
            candidates@.len() > 0 && !line_too_long(candidates.deep_view()[0]) ==> (r matches Ok(p)
                && p.0.protocols() == candidates.deep_view() && p.0.current() == 0
                && p.0.awaiting_version() && !p.0.finished() && p.0.inv() && p.1@ == line_encoding(
                encode_utf8(version_chars()),
            ) + line_encoding(encode_utf8(candidates.deep_view()[0]))),
    {
        if candidates.len() == 0 {
            return Err(Error::EmptyCandidateList);
        }
        let mut out: Vec<u8> = Vec::new();
        let version = multistream_protocol();
        proof {
            reveal_strlit("/multistream/1.0.0");
            lemma_encode_utf8_len(version_chars());
        }
        match serialise_varint_line(&mut out, version) {
            Ok(()) => {},
            Err(e) => {
                proof {
                    assert(false);
                }
                return Err(e);
            },
        }
        match serialise_varint_line(&mut out, candidates[0].as_str()) {
            Ok(()) => {},
            Err(e) => {
                return Err(e);
            },
        }
        let neg = Negotiator { candidates, next_index: 0, version_pending: true, done: false };
        Ok((neg, out))
    }

    /// Feed the next decoded response line to the engine and learn what to do
    /// next.
    ///
    /// During the version echo: anything but the exact version identifier
    /// fails with `UnexpectedVersion`; the echo itself asks for another line.
    /// During a candidate reply: the proposed candidate echoed back selects
    /// it; the rejection token moves to the next candidate (sending its
    /// proposal) or, after the last one, reports that no protocol matched;
    /// any other reply fails with `UnexpectedResponse`.
    pub fn on_line(&mut self, line: &String) -> (step: Step)
        requires
            old(self).inv(),
            !old(self).finished(),
        ensures
            final(self).inv(),
            final(self).protocols() == old(self).protocols(),
            old(self).awaiting_version() && line@ != version_chars() ==> step == Step::Fail(
                Error::UnexpectedVersion,
            ) && final(self).finished(),
            old(self).awaiting_version() && line@ == version_chars() ==> step == Step::Read
                && !final(self).finished() && !final(self).awaiting_version()
                && final(self).current() == old(self).current(),
            !old(self).awaiting_version() ==> ({
                let i = old(self).current();
                let ps = old(self).protocols();
                &&& line@ == ps[i] ==> step == Step::Selected(i as usize) && final(self).finished()
                &&& line@ != ps[i] && line@ != na_chars() ==> step == Step::Fail(
                    Error::UnexpectedResponse,
                ) && final(self).finished()
                &&& line@ != ps[i] && line@ == na_chars() && i + 1 == ps.len() ==> step
                    == Step::NoMatch && final(self).finished()
                &&& line@ != ps[i] && line@ == na_chars() && i + 1 < ps.len() && line_too_long(
                    ps[i + 1],
                ) ==> step == Step::Fail(Error::InvalidLineLength) && final(self).finished()
                &&& line@ != ps[i] && line@ == na_chars() && i + 1 < ps.len() && !line_too_long(
                    ps[i + 1],
                ) ==> (step matches Step::Send(out) && out@ == line_encoding(encode_utf8(ps[i + 1]))
                    && !final(self).finished() && !final(self).awaiting_version()
                    && final(self).current() == i + 1)
            }),
    {
        if self.version_pending {
            let version = String::from_str(multistream_protocol());
            if line.eq(&version) {
                self.version_pending = false;
                Step::Read
            } else {
                self.done = true;
                Step::Fail(Error::UnexpectedVersion)
            }
        } else {
            if line.eq(&self.candidates[self.next_index]) {
                self.done = true;
                Step::Selected(self.next_index)
            } else {
                let na = String::from_str(na_token());
                if line.eq(&na) {
                    let count: usize = self.candidates.len();
                    if self.next_index + 1 == count {
                        self.done = true;
                        Step::NoMatch
                    } else {
                        self.next_index = self.next_index + 1;
                        let mut out: Vec<u8> = Vec::new();
                        match serialise_varint_line(&mut out, self.candidates[self.next_index].as_str()) {
                            Ok(()) => Step::Send(out),
                            Err(e) => {
                                self.done = true;
                                Step::Fail(e)
                            },
                        }
                    }
                } else {
                    self.done = true;
                    Step::Fail(Error::UnexpectedResponse)
                }
            }
        }
    }
}

} // verus!
