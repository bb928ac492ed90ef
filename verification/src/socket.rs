//! The mode-switched socket layer: a byte duplex carrying either raw bytes
//! (the textual preamble) or multiplexed frames (the binary phase).
//!
//! The socket is modelled over in-memory byte queues: `input` holds the
//! bytes received from the peer and not yet consumed, `output` the bytes
//! queued towards the peer.  The surrounding program pumps bytes between
//! these queues and the real transport; reading past what `input` holds
//! is the model of a stream that blocks or ends, and surfaces as `Io`.
use vstd::prelude::*;

use crate::frame::{frame_bytes, header_len, msg_from_header, msg_to_header, wire_to_tag,
    RsyncMessage};

verus! {

/// Failure kinds of the sending side.
#[derive(Clone, Copy, Debug, PartialEq, Eq, Structural)]
pub enum SendError {
    /// The underlying byte stream failed.
    Io,
    /// A non-Data message was handed to the raw (not multiplexed) mode,
    /// which can only carry verbatim bytes.
    NonDataWhileNotMultiplexed,
}

/// Failure kinds of the receiving side.
#[derive(Clone, Copy, Debug, PartialEq, Eq, Structural)]
pub enum ReceiveError {
    /// The underlying byte stream failed, or ended before a full item.
    Io,
    /// A frame arrived whose tag names no known message kind.
    UnsupportedMessageType,
    /// `read_raw_until` was called while the socket was multiplexed.
    RawReadWhileMultiplexed,
    /// `read_message` was called while the socket was not multiplexed.
    ReadMessageWhileNotMultiplexed,
    /// A variable-width integer field ended before its declared length.
    TruncatedVarint,
    /// A received item was malformed: a non-Data message or a short Data
    /// payload where an integer was owed, or a varint wider than 64 bits.
    Invalid,
}

/// The index of the first `d` in `s`, if any.
pub open spec fn find_byte(s: Seq<u8>, d: u8) -> Option<int>
    decreases s.len(),
{
    if s.len() == 0 {
        None
    } else if s[0] == d {
        Some(0)
    } else {
        match find_byte(s.skip(1), d) {
            Some(i) => Some(i + 1),
            None => None,
        }
    }
}

/// A delimiter found by scanning is the one `find_byte` names.
proof fn lemma_find_byte_at(s: Seq<u8>, d: u8, o: int)
    requires
        0 <= o < s.len(),
        s[o] == d,
        forall|j: int| 0 <= j < o ==> s[j] != d,
    ensures
        find_byte(s, d) == Some(o),
    decreases o,
{
    if o > 0 {
        assert(forall|j: int| 0 <= j < o - 1 ==> s.skip(1)[j] != d);
        lemma_find_byte_at(s.skip(1), d, o - 1);
    }
}

/// A sequence without the delimiter has no index for `find_byte` to name.
proof fn lemma_find_byte_none(s: Seq<u8>, d: u8)
    requires
        forall|j: int| 0 <= j < s.len() ==> s[j] != d,
    ensures
        find_byte(s, d) is None,
    decreases s.len(),
{
    if s.len() > 0 {
        assert(forall|j: int| 0 <= j < s.len() - 1 ==> s.skip(1)[j] != d);
        lemma_find_byte_none(s.skip(1), d);
    }
}

/// The signed 32-bit value of four big-endian bytes.
pub open spec fn be_i32(b: Seq<u8>) -> int
    recommends
        b.len() >= 4,
{
    let raw = 16777216 * (b[0] as int) + 65536 * (b[1] as int) + 256 * (b[2] as int) + (
    b[3] as int);
    if raw >= 0x80000000 {
        raw - 0x100000000
    } else {
        raw
    }
}

/// What reading one frame from the head of `pend` yields: the logical
/// tag and raw payload with the bytes consumed, or an error with the
/// bytes consumed before it (nothing on `Io`, which says the buffered
/// input does not hold the whole frame yet).
pub open spec fn frame_outcome(pend: Seq<u8>) -> Result<((u8, Seq<u8>), int), (ReceiveError, int)> {
    if pend.len() < 4 {
        Err((ReceiveError::Io, 0))
    } else if wire_to_tag(pend[3]) > 17 {
        Err((ReceiveError::UnsupportedMessageType, 0))
    } else if pend.len() < 4 + header_len(pend) {
        Err((ReceiveError::Io, 0))
    } else {
        Ok(
            (
                (wire_to_tag(pend[3]), pend.subrange(4, 4 + header_len(pend) as int)),
                4 + header_len(pend) as int,
            ),
        )
    }
}

/// What reading one big-endian integer from the head of `pend` yields:
/// the frame must be Data with at least four payload bytes.
pub open spec fn int_frame(pend: Seq<u8>) -> Result<(int, int), (ReceiveError, int)> {
    match frame_outcome(pend) {
        Err(e) => Err(e),
        Ok(((tag, payload), c)) => {
            if tag != 0 || payload.len() < 4 {
                Err((ReceiveError::Invalid, c))
            } else {
                Ok((be_i32(payload), c))
            }
        },
    }
}

/// A byte duplex with a single mode switch per direction: raw before the
/// compat-flags exchange, multiplexed after it.
pub struct RsyncSocket {
    multiplex_in: bool,
    multiplex_out: bool,
    input: Vec<u8>,
    rpos: usize,
    output: Vec<u8>,
}

impl RsyncSocket {
    /// The read cursor never passes what was fed.
    pub closed spec fn wf(&self) -> bool {
        self.rpos <= self.input.len()
    }

    /// The bytes received from the peer and not yet consumed.
    pub closed spec fn pending(&self) -> Seq<u8> {
        self.input@.skip(self.rpos as int)
    }

    /// The bytes queued towards the peer.
    pub closed spec fn out(&self) -> Seq<u8> {
        self.output@
    }

    pub closed spec fn spec_multiplex_in(&self) -> bool {
        self.multiplex_in
    }

    pub closed spec fn spec_multiplex_out(&self) -> bool {
        self.multiplex_out
    }

    /// Both directions start out raw, with nothing buffered.
    pub fn new() -> (r: RsyncSocket)
        ensures
            r.wf(),
            !r.spec_multiplex_in(),
            !r.spec_multiplex_out(),
            r.pending() == Seq::<u8>::empty(),
            r.out() == Seq::<u8>::empty(),
    {
        let r = RsyncSocket {
            multiplex_in: false,
            multiplex_out: false,
            input: Vec::new(),
            rpos: 0,
            output: Vec::new(),
        };
        proof {
            assert(r.pending() =~= Seq::<u8>::empty());
        }
        r
    }

    /// Hands the socket bytes that arrived from the peer.
    pub fn feed(&mut self, bytes: &[u8])
        requires
            old(self).wf(),
        ensures
            final(self).wf(),
            final(self).pending() == old(self).pending() + bytes@,
            final(self).out() == old(self).out(),
            final(self).spec_multiplex_in() == old(self).spec_multiplex_in(),
            final(self).spec_multiplex_out() == old(self).spec_multiplex_out(),
    {
        self.input.extend_from_slice(bytes);
        proof {
            assert(self.input@.skip(self.rpos as int) =~= old(self).input@.skip(
                old(self).rpos as int,
            ) + bytes@);
        }
    }

    /// Takes the bytes queued towards the peer, leaving the queue empty.
    pub fn take_output(&mut self) -> (r: Vec<u8>)
        requires
            old(self).wf(),
        ensures
            final(self).wf(),
            r@ == old(self).out(),
            final(self).out() == Seq::<u8>::empty(),
            final(self).pending() == old(self).pending(),
            final(self).spec_multiplex_in() == old(self).spec_multiplex_in(),
            final(self).spec_multiplex_out() == old(self).spec_multiplex_out(),
    {
        let mut taken: Vec<u8> = Vec::new();
        core::mem::swap(&mut taken, &mut self.output);
        taken
    }

    pub fn multiplex_out(&self) -> (r: bool)
        ensures
            r == self.spec_multiplex_out(),
    {
        self.multiplex_out
    }

    pub fn set_multiplex_out(&mut self, mp: bool)
        requires
            old(self).wf(),
        ensures
            final(self).wf(),
            final(self).spec_multiplex_out() == mp,
            final(self).spec_multiplex_in() == old(self).spec_multiplex_in(),
            final(self).pending() == old(self).pending(),
            final(self).out() == old(self).out(),
    {
        self.multiplex_out = mp;
    }

    pub fn multiplex_in(&self) -> (r: bool)
        ensures
            r == self.spec_multiplex_in(),
    {
        self.multiplex_in
    }

    pub fn set_multiplex_in(&mut self, mp: bool)
        requires
            old(self).wf(),
        ensures
            final(self).wf(),
            final(self).spec_multiplex_in() == mp,
            final(self).spec_multiplex_out() == old(self).spec_multiplex_out(),
            final(self).pending() == old(self).pending(),
            final(self).out() == old(self).out(),
    {
        self.multiplex_in = mp;
    }

    /// Finds the next `delimiter` at or after offset `from` of the
    /// pending input, consuming nothing.
    pub fn peek_find(&self, delimiter: u8, from: usize) -> (r: Option<usize>)
        requires
            self.wf(),
            from <= self.pending().len(),
        ensures
            match r {
                Some(j) => from <= j < self.pending().len() && j < usize::MAX && self.pending()[
                    j as int
                ] == delimiter && forall|k: int|
                    from <= k < j ==> self.pending()[k] != delimiter,
                None => forall|k: int|
                    from <= k < self.pending().len() ==> self.pending()[k] != delimiter,
            },
    {
        let mut i: usize = self.rpos + from;
        while i < self.input.len()
            invariant
                self.wf(),
                self.rpos + from <= i <= self.input.len(),
                forall|k: int| self.rpos + from <= k < i ==> self.input@[k] != delimiter,
            decreases self.input.len() - i,
        {
            if *vstd::slice::slice_index_get(self.input.as_slice(), i) == delimiter {
                return Some(i - self.rpos);
            }
            i = i + 1;
        }
        None
    }

    /// Borrows a window of the pending input, consuming nothing.
    pub fn peek_slice(&self, from: usize, to: usize) -> (r: &[u8])
        requires
            self.wf(),
            from <= to <= self.pending().len(),
        ensures
            r@ == self.pending().subrange(from as int, to as int),
    {
        let r = vstd::slice::slice_subrange(self.input.as_slice(), self.rpos + from, self.rpos
            + to);
        proof {
            assert(r@ =~= self.pending().subrange(from as int, to as int));
        }
        r
    }

    /// Drops the first `n` pending bytes, once a caller has read them
    /// through `peek_slice`.
    pub fn consume(&mut self, n: usize)
        requires
            old(self).wf(),
            n <= old(self).pending().len(),
        ensures
            final(self).wf(),
            final(self).pending() == old(self).pending().skip(n as int),
            final(self).out() == old(self).out(),
            final(self).spec_multiplex_in() == old(self).spec_multiplex_in(),
            final(self).spec_multiplex_out() == old(self).spec_multiplex_out(),
    {
        self.rpos = self.rpos + n;
        proof {
            assert(self.input@.skip(self.rpos as int) =~= old(self).pending().skip(n as int));
        }
    }

    /// Queues a message towards the peer.  Raw mode carries only Data,
    /// verbatim; multiplexed mode frames every kind behind its header.
    pub fn send_message(&mut self, message: &RsyncMessage) -> (r: Result<(), SendError>)
        requires
            old(self).wf(),
            message.spec_payload().len() < 0x1000000,
        ensures
            final(self).wf(),
            final(self).pending() == old(self).pending(),
            final(self).spec_multiplex_in() == old(self).spec_multiplex_in(),
            final(self).spec_multiplex_out() == old(self).spec_multiplex_out(),
            old(self).spec_multiplex_out() ==> r == Ok::<(), SendError>(()) && final(self).out()
                == old(self).out() + frame_bytes(message),
            !old(self).spec_multiplex_out() && message is Data ==> r == Ok::<(), SendError>(())
                && final(self).out() == old(self).out() + message.spec_payload(),
            !old(self).spec_multiplex_out() && !(message is Data) ==> r == Err::<(), SendError>(
                SendError::NonDataWhileNotMultiplexed,
            ) && final(self).out() == old(self).out(),
    {
        if !self.multiplex_out {
            match message {
                RsyncMessage::Data { data } => {
                    self.output.extend_from_slice(data.as_slice());
                    Ok(())
                },
                _ => Err(SendError::NonDataWhileNotMultiplexed),
            }
        } else {
            let header = msg_to_header(message);
            self.output.extend_from_slice(header.as_slice());
            match message {
                RsyncMessage::Data { data } => {
                    self.output.extend_from_slice(data.as_slice());
                },
                _ => {},
            }
            proof {
                assert(self.output@ =~= old(self).output@ + frame_bytes(message));
            }
            Ok(())
        }
    }

    /// Queues plain bytes as one Data message.
    pub fn send_data(&mut self, data: &[u8]) -> (r: Result<(), SendError>)
        requires
            old(self).wf(),
            data@.len() < 0x1000000,
        ensures
            final(self).wf(),
            final(self).pending() == old(self).pending(),
            final(self).spec_multiplex_in() == old(self).spec_multiplex_in(),
            final(self).spec_multiplex_out() == old(self).spec_multiplex_out(),
            r == Ok::<(), SendError>(()),
            old(self).spec_multiplex_out() ==> final(self).out() == old(self).out()
                + crate::frame::header_bytes(data@.len(), 0) + data@,
            !old(self).spec_multiplex_out() ==> final(self).out() == old(self).out() + data@,
    {
        let message = RsyncMessage::Data { data: vstd::slice::slice_to_vec(data) };
        let r = self.send_message(&message);
        proof {
            if old(self).spec_multiplex_out() {
                assert(old(self).out() + frame_bytes(&message) =~= old(self).out()
                    + crate::frame::header_bytes(data@.len(), 0) + data@);
            }
        }
        r
    }

    /// Reads bytes up to and including the first `delimiter`.  Legal only
    /// in raw mode; `Io` when the buffered input holds no delimiter yet.
    pub fn read_raw_until(&mut self, delimiter: u8) -> (r: Result<Vec<u8>, ReceiveError>)
        requires
            old(self).wf(),
        ensures
            final(self).wf(),
            final(self).out() == old(self).out(),
            final(self).spec_multiplex_in() == old(self).spec_multiplex_in(),
            final(self).spec_multiplex_out() == old(self).spec_multiplex_out(),
            old(self).spec_multiplex_in() ==> r == Err::<Vec<u8>, ReceiveError>(
                ReceiveError::RawReadWhileMultiplexed,
            ) && final(self).pending() == old(self).pending(),
            !old(self).spec_multiplex_in() ==> match find_byte(old(self).pending(), delimiter) {
                Some(i) => (0 <= i < old(self).pending().len()) && (r matches Ok(line) && line@
                    == old(self).pending().take(i + 1)) && final(self).pending()
                    == old(self).pending().skip(i + 1),
                None => r == Err::<Vec<u8>, ReceiveError>(ReceiveError::Io) && final(self).pending()
                    == old(self).pending(),
            },
    {
        if self.multiplex_in {
            return Err(ReceiveError::RawReadWhileMultiplexed);
        }
        let ghost pend = self.pending();
        let mut i: usize = self.rpos;
        while i < self.input.len()
            invariant
                self == old(self),
                !self.multiplex_in,
                self.rpos <= i <= self.input.len(),
                pend == self.input@.skip(self.rpos as int),
                forall|j: int| self.rpos <= j < i ==> self.input@[j] != delimiter,
            decreases self.input.len() - i,
        {
            if *vstd::slice::slice_index_get(self.input.as_slice(), i) == delimiter {
                let ghost o = i - self.rpos;
                proof {
                    assert(pend[o] == delimiter);
                    assert(forall|j: int| 0 <= j < o ==> pend[j] != delimiter);
                    lemma_find_byte_at(pend, delimiter, o);
                }
                let line = vstd::slice::slice_to_vec(
                    vstd::slice::slice_subrange(self.input.as_slice(), self.rpos, i + 1),
                );
                self.rpos = i + 1;
                proof {
                    assert(line@ =~= pend.take(o + 1));
                    assert(self.input@.skip(self.rpos as int) =~= pend.skip(o + 1));
                }
                return Ok(line);
            }
            i = i + 1;
        }
        proof {
            assert(forall|j: int| 0 <= j < pend.len() ==> pend[j] != delimiter);
            lemma_find_byte_none(pend, delimiter);
        }
        Err(ReceiveError::Io)
    }

    /// Reads one multiplexed frame: its header, then exactly the declared
    /// payload.  Legal only in multiplexed mode.  On any error nothing is
    /// consumed; `Io` says the buffered input does not hold the whole
    /// frame yet.
    pub fn read_message(&mut self) -> (r: Result<RsyncMessage, ReceiveError>)
        requires
            old(self).wf(),
        ensures
            final(self).wf(),
            final(self).out() == old(self).out(),
            final(self).spec_multiplex_in() == old(self).spec_multiplex_in(),
            final(self).spec_multiplex_out() == old(self).spec_multiplex_out(),
            !old(self).spec_multiplex_in() ==> r == Err::<RsyncMessage, ReceiveError>(
                ReceiveError::ReadMessageWhileNotMultiplexed,
            ) && final(self).pending() == old(self).pending(),
            old(self).spec_multiplex_in() ==> match frame_outcome(old(self).pending()) {
                Err((e, c)) => r == Err::<RsyncMessage, ReceiveError>(e) && final(self).pending()
                    == old(self).pending().skip(c),
                Ok(((tag, payload), c)) => (r matches Ok(m) && m.spec_tag() == tag
                    && m.spec_payload() == (if tag == 0 {
                    payload
                } else {
                    Seq::<u8>::empty()
                })) && final(self).pending() == old(self).pending().skip(c),
            },
    {
        if !self.multiplex_in {
            return Err(ReceiveError::ReadMessageWhileNotMultiplexed);
        }
        let ghost pend = self.pending();
        let avail: usize = self.input.len() - self.rpos;
        if avail < 4 {
            return Err(ReceiveError::Io);
        }
        let header = vstd::slice::slice_subrange(self.input.as_slice(), self.rpos, self.rpos + 4);
        proof {
            assert(header@ =~= pend.take(4));
            assert(header@[3] == pend[3]);
        }
        let (tag, length32) = msg_from_header(header);
        if tag > 17 {
            return Err(ReceiveError::UnsupportedMessageType);
        }
        let length: usize = length32 as usize;
        proof {
            assert(header_len(header@) == header_len(pend)) by {
                assert(header@[0] == pend[0]);
                assert(header@[1] == pend[1]);
                assert(header@[2] == pend[2]);
            }
            assert(header_len(pend) < 0x1000000);
        }
        if avail - 4 < length {
            return Err(ReceiveError::Io);
        }
        let payload = vstd::slice::slice_to_vec(
            vstd::slice::slice_subrange(
                self.input.as_slice(),
                self.rpos + 4,
                self.rpos + 4 + length,
            ),
        );
        proof {
            assert(payload@ =~= pend.subrange(4, 4 + length as int));
        }
        self.rpos = self.rpos + 4 + length;
        proof {
            assert(self.input@.skip(self.rpos as int) =~= pend.skip(4 + length as int));
        }
        match RsyncMessage::from_tag(tag, payload) {
            Some(m) => Ok(m),
            None => Err(ReceiveError::UnsupportedMessageType),
        }
    }

    /// Reads one Data message and takes its first four payload bytes as a
    /// big-endian signed integer.  A non-Data message, or a Data payload
    /// shorter than four bytes, is `Invalid` (the frame is consumed).
    pub fn read_int(&mut self) -> (r: Result<i32, ReceiveError>)
        requires
            old(self).wf(),
        ensures
            final(self).wf(),
            final(self).out() == old(self).out(),
            final(self).spec_multiplex_in() == old(self).spec_multiplex_in(),
            final(self).spec_multiplex_out() == old(self).spec_multiplex_out(),
            !old(self).spec_multiplex_in() ==> r == Err::<i32, ReceiveError>(
                ReceiveError::ReadMessageWhileNotMultiplexed,
            ) && final(self).pending() == old(self).pending(),
            old(self).spec_multiplex_in() ==> match int_frame(old(self).pending()) {
                Err((e, c)) => r == Err::<i32, ReceiveError>(e) && final(self).pending()
                    == old(self).pending().skip(c),
                Ok((v, c)) => (r matches Ok(x) && x as int == v) && final(self).pending()
                    == old(self).pending().skip(c),
            },
    {
        let message = match self.read_message() {
            Ok(m) => m,
            Err(e) => {
                return Err(e);
            },
        };
        match message {
            RsyncMessage::Data { data } => {
                if data.len() < 4 {
                    return Err(ReceiveError::Invalid);
                }
                let raw: u32 = 16777216 * (data[0] as u32) + 65536 * (data[1] as u32) + 256 * (
                data[2] as u32) + (data[3] as u32);
                let v: i32 = if raw < 0x80000000 {
                    raw as i32
                } else if raw == 0x80000000 {
                    -0x7FFFFFFF - 1
                } else {
                    let magnitude: u32 = (0xFFFFFFFF - raw) + 1;
                    -(magnitude as i32)
                };
                Ok(v)
            },
            _ => Err(ReceiveError::Invalid),
        }
    }
}

} // verus!
