//! The session state machine: a linear run from the textual handshake
//! through the multiplex switch to list transmission and checksum
//! intake.  Every transition is driven by exactly one I/O event.
use vstd::prelude::*;

use crate::errors::{ClientError, RsyncError};
use crate::file_list::{encode_entries, encode_list, le32_bytes, lemma_encode_entries_snoc,
    valid_names, File};
use crate::frame::{header_bytes, RsyncMessage};
use crate::handshake::{spec_parse_version, Query, Version};
use crate::socket::{find_byte, ReceiveError, RsyncSocket};
use vstd::utf8::{decode_utf8, valid_utf8};

verus! {

/// Where in its linear run a session stands.
#[derive(Clone, Copy, Debug, PartialEq, Eq, Structural)]
pub enum SessionState {
    Start,
    PreambleSent,
    PeerVersionKnown,
    QueryRead,
    OkSent,
    ArgsRead,
    CompatSent,
    SeedSent,
    Multiplexed,
    ClientMsgRead,
    FileListSent,
    SumsRead,
    Terminal,
}

/// The states of the textual preamble, where both directions are raw.
pub open spec fn pre_mux_state(st: SessionState) -> bool {
    match st {
        SessionState::Start
        | SessionState::PreambleSent
        | SessionState::PeerVersionKnown
        | SessionState::QueryRead
        | SessionState::OkSent
        | SessionState::ArgsRead
        | SessionState::CompatSent
        | SessionState::SeedSent => true,
        _ => false,
    }
}

/// The states of the binary phase, where both directions are framed.
pub open spec fn mux_state(st: SessionState) -> bool {
    match st {
        SessionState::Multiplexed
        | SessionState::ClientMsgRead
        | SessionState::FileListSent
        | SessionState::SumsRead => true,
        _ => false,
    }
}

/// "@RSYNCD: " as bytes.
pub open spec fn rsyncd_prefix_bytes() -> Seq<u8> {
    seq![0x40u8, 0x52u8, 0x53u8, 0x59u8, 0x4Eu8, 0x43u8, 0x44u8, 0x3Au8, 0x20u8]
}

/// The greeting this server sends: "@RSYNCD: 31.0\n".
pub open spec fn greeting_bytes() -> Seq<u8> {
    rsyncd_prefix_bytes() + seq![0x33u8, 0x31u8, 0x2Eu8, 0x30u8, 0x0Au8]
}

/// "@RSYNCD: OK\n".
pub open spec fn ok_bytes() -> Seq<u8> {
    rsyncd_prefix_bytes() + seq![0x4Fu8, 0x4Bu8, 0x0Au8]
}

/// "@RSYNCD: EXIT\n".
pub open spec fn exit_bytes() -> Seq<u8> {
    rsyncd_prefix_bytes() + seq![0x45u8, 0x58u8, 0x49u8, 0x54u8, 0x0Au8]
}

/// The module-list payload: each name, line-feed terminated.
pub open spec fn module_list_bytes(mods: Seq<Seq<u8>>) -> Seq<u8>
    decreases mods.len(),
{
    if mods.len() == 0 {
        Seq::<u8>::empty()
    } else {
        mods[0] + seq![0x0Au8] + module_list_bytes(mods.skip(1))
    }
}

/// One driven session: the socket, the per-session configuration, and
/// where the run stands.
pub struct Rsync {
    socket: RsyncSocket,
    checksum_seed: u32,
    modules: Vec<Vec<u8>>,
    state: SessionState,
}

impl Rsync {
    /// The socket's mode always agrees with the state: raw through the
    /// preamble, framed from the multiplex switch on.
    pub closed spec fn wf(&self) -> bool {
        &&& self.socket.wf()
        &&& pre_mux_state(self.state) ==> !self.socket.spec_multiplex_in()
            && !self.socket.spec_multiplex_out()
        &&& mux_state(self.state) ==> self.socket.spec_multiplex_in()
            && self.socket.spec_multiplex_out()
    }

    pub closed spec fn spec_state(&self) -> SessionState {
        self.state
    }

    /// The bytes received from the peer and not yet consumed.
    pub closed spec fn pending(&self) -> Seq<u8> {
        self.socket.pending()
    }

    /// The bytes queued towards the peer.
    pub closed spec fn out(&self) -> Seq<u8> {
        self.socket.out()
    }

    pub closed spec fn spec_seed(&self) -> u32 {
        self.checksum_seed
    }

    /// The configured module names.
    pub closed spec fn spec_modules(&self) -> Seq<Seq<u8>> {
        self.modules.deep_view()
    }

    /// A fresh session over an empty duplex, in the start state.
    pub fn new(checksum_seed: u32, modules: Vec<Vec<u8>>) -> (r: Rsync)
        ensures
            r.wf(),
            r.spec_state() == SessionState::Start,
            r.spec_seed() == checksum_seed,
            r.spec_modules() == modules.deep_view(),
            r.pending() == Seq::<u8>::empty(),
            r.out() == Seq::<u8>::empty(),
    {
        Rsync { socket: RsyncSocket::new(), checksum_seed, modules, state: SessionState::Start }
    }

    pub fn state(&self) -> (r: SessionState)
        ensures
            r == self.spec_state(),
    {
        self.state
    }

    /// Hands the session bytes that arrived from the peer.
    pub fn feed(&mut self, bytes: &[u8])
        requires
            old(self).wf(),
        ensures
            final(self).wf(),
            final(self).pending() == old(self).pending() + bytes@,
            final(self).out() == old(self).out(),
            final(self).spec_state() == old(self).spec_state(),
            final(self).spec_seed() == old(self).spec_seed(),
            final(self).spec_modules() == old(self).spec_modules(),
    {
        self.socket.feed(bytes);
    }

    /// Takes the bytes queued towards the peer.
    pub fn take_output(&mut self) -> (r: Vec<u8>)
        requires
            old(self).wf(),
        ensures
            final(self).wf(),
            r@ == old(self).out(),
            final(self).out() == Seq::<u8>::empty(),
            final(self).pending() == old(self).pending(),
            final(self).spec_state() == old(self).spec_state(),
            final(self).spec_seed() == old(self).spec_seed(),
            final(self).spec_modules() == old(self).spec_modules(),
    {
        self.socket.take_output()
    }

    /// Sends the server greeting, entering the preamble.
    pub fn send_greeting(&mut self)
        requires
            old(self).wf(),
            old(self).spec_state() == SessionState::Start,
        ensures
            final(self).wf(),
            final(self).spec_state() == SessionState::PreambleSent,
            final(self).out() == old(self).out() + greeting_bytes(),
            final(self).pending() == old(self).pending(),
            final(self).spec_seed() == old(self).spec_seed(),
            final(self).spec_modules() == old(self).spec_modules(),
    {
        let line = greeting_vec();
        let _ = self.socket.send_data(line.as_slice());
        self.state = SessionState::PreambleSent;
    }

    /// Acknowledges the query, "@RSYNCD: OK".
    pub fn server_send_ok(&mut self)
        requires
            old(self).wf(),
            old(self).spec_state() == SessionState::QueryRead,
        ensures
            final(self).wf(),
            final(self).spec_state() == SessionState::OkSent,
            final(self).out() == old(self).out() + ok_bytes(),
            final(self).pending() == old(self).pending(),
            final(self).spec_seed() == old(self).spec_seed(),
            final(self).spec_modules() == old(self).spec_modules(),
    {
        let mut line = rsyncd_prefix_vec();
        line.push(0x4F);
        line.push(0x4B);
        line.push(0x0A);
        proof {
            assert(line@ =~= ok_bytes());
        }
        let _ = self.socket.send_data(line.as_slice());
        self.state = SessionState::OkSent;
    }

    /// Announces the graceful close of the textual phase and ends the
    /// run.  In the framed phase the line travels as one Data frame.
    pub fn send_exit(&mut self)
        requires
            old(self).wf(),
        ensures
            final(self).wf(),
            final(self).spec_state() == SessionState::Terminal,
            final(self).pending() == old(self).pending(),
            final(self).spec_seed() == old(self).spec_seed(),
            final(self).spec_modules() == old(self).spec_modules(),
            !old(self).socket_mux_out() ==> final(self).out() == old(self).out() + exit_bytes(),
            old(self).socket_mux_out() ==> final(self).out() == old(self).out() + header_bytes(
                exit_bytes().len(),
                0,
            ) + exit_bytes(),
    {
        let mut line = rsyncd_prefix_vec();
        line.push(0x45);
        line.push(0x58);
        line.push(0x49);
        line.push(0x54);
        line.push(0x0A);
        proof {
            assert(line@ =~= exit_bytes());
        }
        let _ = self.socket.send_data(line.as_slice());
        self.state = SessionState::Terminal;
    }

    /// Whether the outgoing direction is framed.
    pub closed spec fn socket_mux_out(&self) -> bool {
        self.socket.spec_multiplex_out()
    }

    /// Whether the incoming direction is framed.
    pub closed spec fn socket_mux_in(&self) -> bool {
        self.socket.spec_multiplex_in()
    }

    /// Sends the single zero compatibility-flags byte.
    pub fn send_compat_flags(&mut self)
        requires
            old(self).wf(),
            old(self).spec_state() == SessionState::ArgsRead,
        ensures
            final(self).wf(),
            final(self).spec_state() == SessionState::CompatSent,
            final(self).out() == old(self).out() + seq![0x00u8],
            final(self).pending() == old(self).pending(),
            final(self).spec_seed() == old(self).spec_seed(),
            final(self).spec_modules() == old(self).spec_modules(),
    {
        let mut line: Vec<u8> = Vec::new();
        line.push(0x00);
        proof {
            assert(line@ =~= seq![0x00u8]);
        }
        let _ = self.socket.send_data(line.as_slice());
        self.state = SessionState::CompatSent;
    }

    /// Sends the 32-bit checksum seed, little-endian.
    pub fn send_checksum_seed(&mut self)
        requires
            old(self).wf(),
            old(self).spec_state() == SessionState::CompatSent,
        ensures
            final(self).wf(),
            final(self).spec_state() == SessionState::SeedSent,
            final(self).out() == old(self).out() + le32_bytes(old(self).spec_seed()),
            final(self).pending() == old(self).pending(),
            final(self).spec_seed() == old(self).spec_seed(),
            final(self).spec_modules() == old(self).spec_modules(),
    {
        let mut line: Vec<u8> = Vec::new();
        crate::file_list::write_le32(self.checksum_seed, &mut line);
        let _ = self.socket.send_data(line.as_slice());
        self.state = SessionState::SeedSent;
    }

    /// Flips both directions to multiplexed framing.  The flag moves
    /// false to true exactly once and never back.
    pub fn start_multiplexing(&mut self)
        requires
            old(self).wf(),
            old(self).spec_state() == SessionState::SeedSent,
        ensures
            final(self).wf(),
            final(self).spec_state() == SessionState::Multiplexed,
            final(self).socket_mux_in(),
            final(self).socket_mux_out(),
            final(self).out() == old(self).out(),
            final(self).pending() == old(self).pending(),
            final(self).spec_seed() == old(self).spec_seed(),
            final(self).spec_modules() == old(self).spec_modules(),
    {
        self.socket.set_multiplex_in(true);
        self.socket.set_multiplex_out(true);
        self.state = SessionState::Multiplexed;
    }
}

/// What reading one delimiter-terminated line from the head of `pend`
/// yields: nothing to read yet, a line past the 1024-byte cap, bytes
/// that are not UTF-8, or the decoded characters without the delimiter.
pub open spec fn spec_line(pend: Seq<u8>, delim: u8) -> Result<Seq<char>, RsyncError> {
    match find_byte(pend, delim) {
        None => Err(RsyncError::Receive(ReceiveError::Io)),
        Some(i) => {
            if i > 1024 {
                Err(RsyncError::LineTooLarge)
            } else if !valid_utf8(pend.take(i)) {
                Err(RsyncError::ClientError(ClientError::InvalidUtf8))
            } else {
                Ok(decode_utf8(pend.take(i)))
            }
        },
    }
}

/// How many bytes reading that line consumes: the line and its
/// delimiter once the delimiter is there, nothing before that.
pub open spec fn line_consumed(pend: Seq<u8>, delim: u8) -> int {
    match find_byte(pend, delim) {
        None => 0,
        Some(i) => i + 1,
    }
}

/// What parsing the peer's greeting line yields: the line must carry
/// the protocol prefix, then "M.m".
pub open spec fn spec_peer_version(pend: Seq<u8>) -> Result<Version, RsyncError> {
    match spec_line(pend, 0x0A) {
        Err(e) => Err(e),
        Ok(cs) => {
            if cs.len() < 9 || cs.subrange(0, 9) != "@RSYNCD: "@ {
                Err(RsyncError::ClientError(ClientError::InvalidHeader))
            } else {
                match spec_parse_version(cs.skip(9)) {
                    Ok(v) => Ok(v),
                    Err(pe) => Err(RsyncError::ClientError(ClientError::VersionParseError(pe))),
                }
            }
        },
    }
}

/// What reading the NUL-separated argument strings yields, with the
/// count of bytes consumed.  Nothing is consumed unless the whole list,
/// ending in an empty argument, is well formed and present.
pub open spec fn spec_args(pend: Seq<u8>) -> (Result<Seq<Seq<char>>, RsyncError>, int)
    decreases pend.len(),
{
    match find_byte(pend, 0x00) {
        None => (Err(RsyncError::Receive(ReceiveError::Io)), 0),
        Some(i) => {
            if i > 1024 {
                (Err(RsyncError::LineTooLarge), 0)
            } else if !valid_utf8(pend.take(i)) {
                (Err(RsyncError::ClientError(ClientError::InvalidUtf8)), 0)
            } else if i == 0 {
                (Ok(Seq::<Seq<char>>::empty()), 1)
            } else if 0 <= i && i + 1 <= pend.len() {
                match spec_args(pend.skip(i + 1)) {
                    (Ok(rest), c) => (Ok(seq![decode_utf8(pend.take(i))] + rest), i + 1 + c),
                    (Err(e), _) => (Err(e), 0),
                }
            } else {
                // `find_byte` never points past the end; this arm only
                // keeps the definition total.
                (Err(RsyncError::Receive(ReceiveError::Io)), 0)
            }
        },
    }
}

#[verifier::external_type_specification]
#[verifier::external_body]
pub struct ExUtf8Error(core::str::Utf8Error);

/// Relies on core::str::from_utf8: it succeeds exactly on well-formed
/// UTF-8 and returns the string those bytes spell.
pub assume_specification[ core::str::from_utf8 ](v: &[u8]) -> (r: Result<
    &str,
    core::str::Utf8Error,
>)
    ensures
        r is Ok <==> valid_utf8(v@),
        r matches Ok(s) ==> s@ == decode_utf8(v@),
;

impl Rsync {
    /// Reads one delimiter-terminated preamble line as a string.  The
    /// line and its delimiter are consumed as soon as the delimiter is
    /// buffered, whether or not the line then parses.
    fn read_line(&mut self, delimiter: u8) -> (r: Result<String, RsyncError>)
        requires
            old(self).wf(),
            !old(self).socket_mux_in(),
        ensures
            final(self).wf(),
            final(self).out() == old(self).out(),
            final(self).spec_state() == old(self).spec_state(),
            final(self).spec_seed() == old(self).spec_seed(),
            final(self).spec_modules() == old(self).spec_modules(),
            final(self).socket_mux_in() == old(self).socket_mux_in(),
            final(self).socket_mux_out() == old(self).socket_mux_out(),
            final(self).pending() == old(self).pending().skip(
                line_consumed(old(self).pending(), delimiter),
            ),
            match spec_line(old(self).pending(), delimiter) {
                Err(e) => r == Err::<String, RsyncError>(e),
                Ok(cs) => r matches Ok(s) && s@ == cs,
            },
    {
        let line = match self.socket.read_raw_until(delimiter) {
            Ok(l) => l,
            Err(e) => {
                return Err(RsyncError::Receive(e));
            },
        };
        let ghost pend = old(self).pending();
        let ghost i = line_consumed(pend, delimiter) - 1;
        proof {
            assert(line@ == pend.take(i + 1));
            assert(line@.len() == i + 1);
        }
        let n = line.len() - 1;
        if n > 1024 {
            return Err(RsyncError::LineTooLarge);
        }
        let body = vstd::slice::slice_subrange(line.as_slice(), 0, n);
        proof {
            assert(body@ =~= pend.take(i));
        }
        match core::str::from_utf8(body) {
            Ok(s) => Ok(s.to_owned()),
            Err(_) => Err(RsyncError::ClientError(ClientError::InvalidUtf8)),
        }
    }

    /// Reads the peer's greeting line and parses its version.
    pub fn read_peer_version(&mut self) -> (r: Result<Version, RsyncError>)
        requires
            old(self).wf(),
            old(self).spec_state() == SessionState::PreambleSent,
        ensures
            final(self).wf(),
            final(self).out() == old(self).out(),
            final(self).spec_seed() == old(self).spec_seed(),
            final(self).spec_modules() == old(self).spec_modules(),
            final(self).pending() == old(self).pending().skip(
                line_consumed(old(self).pending(), 0x0A),
            ),
            r == spec_peer_version(old(self).pending()),
            r is Ok ==> final(self).spec_state() == SessionState::PeerVersionKnown,
            r is Err ==> final(self).spec_state() == SessionState::PreambleSent,
    {
        let line = match self.read_line(0x0A) {
            Ok(l) => l,
            Err(e) => {
                return Err(e);
            },
        };
        let ls = line.as_str();
        let n = ls.unicode_len();
        if n < 9 {
            return Err(RsyncError::ClientError(ClientError::InvalidHeader));
        }
        let pre = ls.substring_char(0, 9);
        let expected = String::from_str("@RSYNCD: ");
        if !String::from_str(pre).eq(&expected) {
            proof {
                assert(line@.subrange(0, 9) == pre@);
            }
            return Err(RsyncError::ClientError(ClientError::InvalidHeader));
        }
        let vers_part = ls.substring_char(9, n);
        proof {
            assert(vers_part@ =~= line@.skip(9));
        }
        match Version::parse(vers_part) {
            Ok(v) => {
                self.state = SessionState::PeerVersionKnown;
                Ok(v)
            },
            Err(pe) => Err(RsyncError::ClientError(ClientError::VersionParseError(pe))),
        }
    }

    /// Reads the client's query line: the module list, or one module.
    pub fn read_query(&mut self) -> (r: Result<Query, RsyncError>)
        requires
            old(self).wf(),
            old(self).spec_state() == SessionState::PeerVersionKnown,
        ensures
            final(self).wf(),
            final(self).out() == old(self).out(),
            final(self).spec_seed() == old(self).spec_seed(),
            final(self).spec_modules() == old(self).spec_modules(),
            final(self).pending() == old(self).pending().skip(
                line_consumed(old(self).pending(), 0x0A),
            ),
            match spec_line(old(self).pending(), 0x0A) {
                Err(e) => r == Err::<Query, RsyncError>(e) && final(self).spec_state()
                    == SessionState::PeerVersionKnown,
                Ok(cs) => final(self).spec_state() == SessionState::QueryRead && match r {
                    Ok(Query::ModuleList) => cs.len() == 0 || cs == "#list"@,
                    Ok(Query::FileList { module }) => module@ == cs && cs.len() > 0 && cs
                        != "#list"@,
                    Err(_) => false,
                },
            },
    {
        let line = match self.read_line(0x0A) {
            Ok(l) => l,
            Err(e) => {
                return Err(e);
            },
        };
        match Query::parse(line.as_str()) {
            Ok(q) => {
                self.state = SessionState::QueryRead;
                Ok(q)
            },
            Err(pe) => Err(RsyncError::ClientError(ClientError::InvalidQuery(pe))),
        }
    }

    /// Reads the NUL-terminated argument strings, up to the empty one
    /// that ends them.  Nothing is consumed unless the whole list is
    /// buffered and well formed.
    pub fn server_read_args(&mut self) -> (r: Result<Vec<String>, RsyncError>)
        requires
            old(self).wf(),
            old(self).spec_state() == SessionState::OkSent,
        ensures
            final(self).wf(),
            final(self).out() == old(self).out(),
            final(self).spec_seed() == old(self).spec_seed(),
            final(self).spec_modules() == old(self).spec_modules(),
            final(self).pending() == old(self).pending().skip(spec_args(old(self).pending()).1),
            match spec_args(old(self).pending()).0 {
                Ok(views) => (r matches Ok(v) && v.deep_view() == views)
                    && final(self).spec_state() == SessionState::ArgsRead,
                Err(e) => r == Err::<Vec<String>, RsyncError>(e) && final(self).spec_state()
                    == SessionState::OkSent,
            },
    {
        let ghost pend = self.socket.pending();
        let mut args: Vec<String> = Vec::new();
        let mut pos: usize = 0;
        proof {
            assert(pend.skip(0) =~= pend);
            assert(args.deep_view() =~= Seq::<Seq<char>>::empty());
            match spec_args(pend) {
                (Ok(rest), c) => {
                    assert(Seq::<Seq<char>>::empty() + rest =~= rest);
                },
                (Err(_), _) => {},
            }
        }
        loop
            invariant
                self == old(self),
                self.wf(),
                self.spec_state() == SessionState::OkSent,
                !self.socket_mux_in(),
                !self.socket_mux_out(),
                pend == self.socket.pending(),
                pos <= pend.len(),
                match spec_args(pend.skip(pos as int)) {
                    (Ok(rest), c) => spec_args(pend).0 == Ok::<Seq<Seq<char>>, RsyncError>(
                        args.deep_view() + rest,
                    ) && spec_args(pend).1 == pos + c,
                    (Err(e), _) => spec_args(pend).0 == Err::<Seq<Seq<char>>, RsyncError>(e)
                        && spec_args(pend).1 == 0,
                },
            decreases pend.len() - pos,
        {
            let ghost cur = pend.skip(pos as int);
            let j = match self.socket.peek_find(0x00, pos) {
                Some(j) => j,
                None => {
                    proof {
                        assert(forall|k: int| 0 <= k < cur.len() ==> cur[k] != 0x00u8);
                        lemma_args_find_none(cur);
                    }
                    return Err(RsyncError::Receive(ReceiveError::Io));
                },
            };
            let i = j - pos;
            proof {
                assert(cur[i as int] == 0x00u8);
                assert(forall|k: int| 0 <= k < i ==> cur[k] != 0x00u8);
                lemma_args_find_at(cur, i as int);
            }
            if i > 1024 {
                return Err(RsyncError::LineTooLarge);
            }
            let sl = self.socket.peek_slice(pos, j);
            proof {
                assert(sl@ =~= cur.take(i as int));
            }
            let st = match core::str::from_utf8(sl) {
                Ok(st) => st,
                Err(_) => {
                    return Err(RsyncError::ClientError(ClientError::InvalidUtf8));
                },
            };
            if i == 0 {
                proof {
                    assert(args.deep_view() + Seq::<Seq<char>>::empty() =~= args.deep_view());
                }
                self.socket.consume(pos + 1);
                self.state = SessionState::ArgsRead;
                return Ok(args);
            }
            let owned = st.to_owned();
            let ghost pre_args = args.deep_view();
            proof {
                assert(cur.skip(i + 1) =~= pend.skip(j + 1));
                assert(owned@ == decode_utf8(cur.take(i as int)));
            }
            args.push(owned);
            pos = j + 1;
            proof {
                assert(args.deep_view() =~= pre_args.push(decode_utf8(cur.take(i as int))));
                match spec_args(cur.skip(i + 1)) {
                    (Ok(rest), c) => {
                        assert(pre_args.push(decode_utf8(cur.take(i as int))) + rest =~= pre_args
                            + (seq![decode_utf8(cur.take(i as int))] + rest));
                    },
                    (Err(_), _) => {},
                }
            }
        }
    }
}

/// Per-block checksum descriptor received from the peer.
#[derive(Clone, Debug)]
pub struct SumBuf {
    pub offset: u64,
    pub length: i32,
    pub checksum: u32,
    pub chain: i32,
    pub flags: u16,
    pub sum2: Vec<u8>,
}

/// A whole checksum set: its header fields and the block descriptors.
#[derive(Clone, Debug)]
pub struct Sums {
    pub total_file_length: u64,
    pub sum_chunks: Vec<SumBuf>,
    pub block_length: i32,
    pub remainder: i32,
    pub sum2_length: i32,
}

impl Sums {
    /// An empty set carrying the given header fields.
    pub fn new(capacity: usize, block_length: i32, remainder: i32, sum2_length: i32) -> (r: Sums)
        ensures
            r.total_file_length == 0,
            r.sum_chunks@.len() == 0,
            r.block_length == block_length,
            r.remainder == remainder,
            r.sum2_length == sum2_length,
    {
        Sums {
            total_file_length: 0,
            sum_chunks: Vec::with_capacity(capacity),
            block_length,
            remainder,
            sum2_length,
        }
    }
}

/// The unsigned 32-bit reading of a signed rolling checksum.
pub open spec fn sum1_bits(v: int) -> int {
    if v < 0 {
        v + 0x100000000
    } else {
        v
    }
}

/// What reading one Data payload from the head of `pend` yields; any
/// other message kind is `Invalid`, its frame consumed.
pub open spec fn data_frame(pend: Seq<u8>) -> Result<(Seq<u8>, int), (ReceiveError, int)> {
    match crate::socket::frame_outcome(pend) {
        Err(e) => Err(e),
        Ok(((tag, payload), c)) => {
            if tag != 0 {
                Err((ReceiveError::Invalid, c))
            } else {
                Ok((payload, c))
            }
        },
    }
}

/// What reading `n` block descriptors yields: each is one integer frame
/// (the rolling checksum) followed by one Data frame carrying at least
/// `sum2_len` bytes of strong checksum.
pub open spec fn chunks_stream(pend: Seq<u8>, n: nat, sum2_len: int) -> Result<
    (Seq<(int, Seq<u8>)>, int),
    (ReceiveError, int),
>
    decreases n,
{
    if n == 0 {
        Ok((Seq::<(int, Seq<u8>)>::empty(), 0))
    } else {
        match crate::socket::int_frame(pend) {
            Err((e, c)) => Err((e, c)),
            Ok((s1, c1)) => match data_frame(pend.skip(c1)) {
                Err((e, c)) => Err((e, c1 + c)),
                Ok((payload, c2)) => {
                    if payload.len() < sum2_len {
                        Err((ReceiveError::Invalid, c1 + c2))
                    } else {
                        match chunks_stream(pend.skip(c1 + c2), (n - 1) as nat, sum2_len) {
                            Ok((rest, c)) => Ok(
                                (seq![(s1, payload.take(sum2_len))] + rest, c1 + c2 + c),
                            ),
                            Err((e, c)) => Err((e, c1 + c2 + c)),
                        }
                    }
                },
            },
        }
    }
}

/// What the whole checksum-set intake yields from the head of `pend`:
/// the four header integers, the block descriptors, and the bytes
/// consumed; or the failure and the bytes consumed before it.
pub open spec fn spec_receive_sums(pend: Seq<u8>) -> Result<
    ((int, int, int, int), Seq<(int, Seq<u8>)>, int),
    (RsyncError, int),
> {
    match crate::socket::int_frame(pend) {
        Err((e, c)) => Err((RsyncError::Receive(e), c)),
        Ok((count, c1)) => match crate::socket::int_frame(pend.skip(c1)) {
            Err((e, c)) => Err((RsyncError::Receive(e), c1 + c)),
            Ok((bl, c2)) => match crate::socket::int_frame(pend.skip(c1 + c2)) {
                Err((e, c)) => Err((RsyncError::Receive(e), c1 + c2 + c)),
                Ok((s2l, c3)) => match crate::socket::int_frame(pend.skip(c1 + c2 + c3)) {
                    Err((e, c)) => Err((RsyncError::Receive(e), c1 + c2 + c3 + c)),
                    Ok((rem, c4)) => {
                        let hdr = c1 + c2 + c3 + c4;
                        if count < 0 {
                            Err((RsyncError::NegativeChunkCount, hdr))
                        } else if s2l < 0 || s2l > 16 || (count > 0 && (bl <= 0 || rem < 0 || rem
                            > bl)) {
                            Err((RsyncError::Unsupported, hdr))
                        } else {
                            match chunks_stream(pend.skip(hdr), count as nat, s2l) {
                                Err((e, c)) => Err((RsyncError::Receive(e), hdr + c)),
                                Ok((chunks, c)) => Ok(((count, bl, s2l, rem), chunks, hdr + c)),
                            }
                        }
                    },
                },
            },
        },
    }
}

/// How the checksum set a successful intake returns relates to the
/// header fields and descriptors on the wire: offsets are the running
/// sum of block lengths, and the final block takes the remainder when
/// one was announced.
pub open spec fn sums_match(
    s: Sums,
    count: int,
    bl: int,
    s2l: int,
    rem: int,
    chunks: Seq<(int, Seq<u8>)>,
) -> bool {
    &&& s.block_length as int == bl
    &&& s.sum2_length as int == s2l
    &&& s.remainder as int == rem
    &&& s.sum_chunks@.len() as int == count
    &&& forall|k: int|
        0 <= k < count ==> {
            let cb = #[trigger] s.sum_chunks@[k];
            &&& cb.checksum as int == sum1_bits(chunks[k].0)
            &&& cb.sum2@ == chunks[k].1
            &&& cb.offset as int == k * bl
            &&& cb.length as int == (if k == count - 1 && rem != 0 {
                rem
            } else {
                bl
            })
            &&& cb.chain == 0
            &&& cb.flags == 0
        }
    &&& s.total_file_length as int == (if count == 0 {
        0
    } else {
        (count - 1) * bl + (if rem != 0 {
            rem
        } else {
            bl
        })
    })
}

/// A suffix without a NUL has no argument boundary.
proof fn lemma_args_find_none(cur: Seq<u8>)
    requires
        forall|k: int| 0 <= k < cur.len() ==> cur[k] != 0x00u8,
    ensures
        find_byte(cur, 0x00) is None,
    decreases cur.len(),
{
    if cur.len() > 0 {
        assert(forall|k: int| 0 <= k < cur.len() - 1 ==> cur.skip(1)[k] != 0x00u8);
        lemma_args_find_none(cur.skip(1));
    }
}

/// A NUL after NUL-free bytes is the boundary `find_byte` names.
proof fn lemma_args_find_at(cur: Seq<u8>, o: int)
    requires
        0 <= o < cur.len(),
        cur[o] == 0x00u8,
        forall|k: int| 0 <= k < o ==> cur[k] != 0x00u8,
    ensures
        find_byte(cur, 0x00) == Some(o),
    decreases o,
{
    if o > 0 {
        assert(forall|k: int| 0 <= k < o - 1 ==> cur.skip(1)[k] != 0x00u8);
        lemma_args_find_at(cur.skip(1), o - 1);
    }
}

/// Streaming one more module name appends it and its line feed.
proof fn lemma_module_bytes_snoc(mods: Seq<Seq<u8>>, i: int)
    requires
        0 <= i < mods.len(),
    ensures
        module_list_bytes(mods.take(i + 1)) == module_list_bytes(mods.take(i)) + mods[i] + seq![
            0x0Au8,
        ],
    decreases i,
{
    let t1 = mods.take(i + 1);
    let t0 = mods.take(i);
    if i == 0 {
        assert(t1.skip(1) =~= Seq::<Seq<u8>>::empty());
        assert(t0 =~= Seq::<Seq<u8>>::empty());
        assert(module_list_bytes(t1) =~= module_list_bytes(t0) + mods[0] + seq![0x0Au8]);
    } else {
        lemma_module_bytes_snoc(mods.skip(1), i - 1);
        assert(t1.skip(1) =~= mods.skip(1).take(i));
        assert(t0.skip(1) =~= mods.skip(1).take(i - 1));
        assert(t1[0] == mods[0]);
        assert(t0[0] == mods[0]);
        assert(mods.skip(1)[i - 1] == mods[i]);
        assert(mods[0] + seq![0x0Au8] + (module_list_bytes(mods.skip(1).take(i - 1)) + mods[i]
            + seq![0x0Au8]) =~= (mods[0] + seq![0x0Au8] + module_list_bytes(
            mods.skip(1).take(i - 1),
        ) + mods[i]) + seq![0x0Au8]);
        assert(module_list_bytes(t0) + mods[i] + seq![0x0Au8] =~= mods[0] + seq![0x0Au8] + (
        module_list_bytes(mods.skip(1).take(i - 1)) + mods[i] + seq![0x0Au8]));
    }
}

impl Rsync {
    /// Appends the varint field for `value` to `buffer`; the encoding
    /// the file-length field of every entry uses.
    pub fn write_varlong(value: u64, min_size: usize, buffer: &mut Vec<u8>)
        requires
            1 <= min_size <= 8,
        ensures
            final(buffer)@ == old(buffer)@ + crate::varint::encode_varlong(
                value as nat,
                min_size as nat,
            ),
    {
        crate::varint::write_varlong(value, min_size, buffer);
    }

    /// Reads the client's first multiplexed message.
    pub fn read_message(&mut self) -> (r: Result<RsyncMessage, ReceiveError>)
        requires
            old(self).wf(),
            old(self).spec_state() == SessionState::Multiplexed,
        ensures
            final(self).wf(),
            final(self).out() == old(self).out(),
            final(self).spec_seed() == old(self).spec_seed(),
            final(self).spec_modules() == old(self).spec_modules(),
            match crate::socket::frame_outcome(old(self).pending()) {
                Err((e, c)) => r == Err::<RsyncMessage, ReceiveError>(e) && final(self).pending()
                    == old(self).pending().skip(c) && final(self).spec_state()
                    == SessionState::Multiplexed,
                Ok(((tag, payload), c)) => (r matches Ok(m) && m.spec_tag() == tag
                    && m.spec_payload() == (if tag == 0 {
                    payload
                } else {
                    Seq::<u8>::empty()
                })) && final(self).pending() == old(self).pending().skip(c)
                    && final(self).spec_state() == SessionState::ClientMsgRead,
            },
    {
        match self.socket.read_message() {
            Ok(m) => {
                self.state = SessionState::ClientMsgRead;
                Ok(m)
            },
            Err(e) => Err(e),
        }
    }

    /// Streams the configured module names, one per line, as a single
    /// Data frame.  A list too large for one frame is refused whole.
    pub fn send_module_list(&mut self) -> (r: Result<(), RsyncError>)
        requires
            old(self).wf(),
            old(self).spec_state() == SessionState::Multiplexed,
        ensures
            final(self).wf(),
            final(self).spec_state() == SessionState::Multiplexed,
            final(self).pending() == old(self).pending(),
            final(self).spec_seed() == old(self).spec_seed(),
            final(self).spec_modules() == old(self).spec_modules(),
            ({
                let payload = module_list_bytes(old(self).spec_modules());
                if payload.len() < 0x1000000 {
                    r == Ok::<(), RsyncError>(()) && final(self).out() == old(self).out()
                        + header_bytes(payload.len(), 0) + payload
                } else {
                    r == Err::<(), RsyncError>(RsyncError::Unsupported)
                        && final(self).out() == old(self).out()
                }
            }),
    {
        let ghost mods = self.modules.deep_view();
        let mut data: Vec<u8> = Vec::new();
        let mut i: usize = 0;
        let n = self.modules.len();
        proof {
            assert(mods.take(0) =~= Seq::<Seq<u8>>::empty());
            assert(data@ =~= module_list_bytes(mods.take(0)));
        }
        while i < n
            invariant
                self == old(self),
                self.wf(),
                i <= n == self.modules@.len(),
                mods == self.modules.deep_view(),
                data@ == module_list_bytes(mods.take(i as int)),
            decreases n - i,
        {
            data.extend_from_slice(self.modules[i].as_slice());
            data.push(0x0A);
            proof {
                lemma_module_bytes_snoc(mods, i as int);
                assert(mods[i as int] == self.modules@[i as int]@);
                assert(data@ =~= module_list_bytes(mods.take(i + 1)));
            }
            i = i + 1;
        }
        proof {
            assert(mods.take(n as int) =~= mods);
        }
        if data.len() >= 0x1000000 {
            return Err(RsyncError::Unsupported);
        }
        let _ = self.socket.send_data(data.as_slice());
        Ok(())
    }

    /// Serializes the whole file list — each entry derived against the
    /// one before it, then the zero sentinel — and sends it as a single
    /// Data frame.  An entry with an over-long basename fails the whole
    /// list with `NameTooLong` before anything is sent; a list too large
    /// for one frame is refused whole.
    #[verifier::rlimit(100)]
    pub fn send_file_list(&mut self, file_list: &Vec<File>) -> (r: Result<(), RsyncError>)
        requires
            old(self).wf(),
            old(self).spec_state() == SessionState::ClientMsgRead,
        ensures
            final(self).wf(),
            final(self).pending() == old(self).pending(),
            final(self).spec_seed() == old(self).spec_seed(),
            final(self).spec_modules() == old(self).spec_modules(),
            if !valid_names(file_list@) {
                r == Err::<(), RsyncError>(RsyncError::NameTooLong)
                    && final(self).out() == old(self).out()
                    && final(self).spec_state() == SessionState::ClientMsgRead
            } else if encode_list(file_list@).len() >= 0x1000000 {
                r == Err::<(), RsyncError>(RsyncError::Unsupported)
                    && final(self).out() == old(self).out()
                    && final(self).spec_state() == SessionState::ClientMsgRead
            } else {
                r == Ok::<(), RsyncError>(()) && final(self).out() == old(self).out()
                    + header_bytes(encode_list(file_list@).len(), 0) + encode_list(file_list@)
                    && final(self).spec_state() == SessionState::FileListSent
            },
    {
        let mut data: Vec<u8> = Vec::new();
        let mut i: usize = 0;
        let n = file_list.len();
        proof {
            assert(file_list@.take(0) =~= Seq::<File>::empty());
        }
        while i < n
            invariant
                self == old(self),
                self.wf(),
                self.spec_state() == SessionState::ClientMsgRead,
                i <= n == file_list@.len(),
                data@ == encode_entries(file_list@.take(i as int), None),
                forall|j: int| 0 <= j < i ==> #[trigger] file_list@[j].basename@.len() <= 255,
            decreases n - i,
        {
            let result = if i == 0 {
                file_list[i].write_data_bytes(None, &mut data)
            } else {
                file_list[i].write_data_bytes(Some(&file_list[i - 1]), &mut data)
            };
            match result {
                Ok(()) => {
                    proof {
                        lemma_encode_entries_snoc(file_list@, None, i as int);
                        assert(data@ =~= encode_entries(file_list@.take(i + 1), None));
                    }
                },
                Err(e) => {
                    proof {
                        assert(file_list@[i as int].basename@.len() > 255);
                        assert(!valid_names(file_list@));
                    }
                    return Err(e);
                },
            }
            i = i + 1;
        }
        proof {
            assert(file_list@.take(n as int) =~= file_list@);
            assert(valid_names(file_list@));
        }
        data.push(0);
        proof {
            assert(data@ =~= encode_list(file_list@));
        }
        if data.len() >= 0x1000000 {
            return Err(RsyncError::Unsupported);
        }
        let _ = self.socket.send_data(data.as_slice());
        self.state = SessionState::FileListSent;
        Ok(())
    }
}

impl Rsync {
    /// Reads a checksum set: four big-endian header integers, then one
    /// block descriptor per announced chunk.  A negative chunk count is
    /// refused before any descriptor is read; header fields that break
    /// the set's invariants are refused the same way.
    #[verifier::rlimit(100)]
    pub fn receive_sums(&mut self) -> (r: Result<Sums, RsyncError>)
        requires
            old(self).wf(),
            old(self).spec_state() == SessionState::FileListSent,
        ensures
            final(self).wf(),
            final(self).out() == old(self).out(),
            final(self).spec_seed() == old(self).spec_seed(),
            final(self).spec_modules() == old(self).spec_modules(),
            match spec_receive_sums(old(self).pending()) {
                Err((e, c)) => r == Err::<Sums, RsyncError>(e) && final(self).pending()
                    == old(self).pending().skip(c) && final(self).spec_state()
                    == SessionState::FileListSent,
                Ok(((count, bl, s2l, rem), chunks, c)) => (r matches Ok(s) && sums_match(
                    s,
                    count,
                    bl,
                    s2l,
                    rem,
                    chunks,
                )) && final(self).pending() == old(self).pending().skip(c)
                    && final(self).spec_state() == SessionState::SumsRead,
            },
    {
        let ghost p0 = self.socket.pending();
        let chunk_count = match self.socket.read_int() {
            Ok(v) => v,
            Err(e) => {
                return Err(RsyncError::Receive(e));
            },
        };
        let ghost c1 = (match crate::socket::int_frame(p0) {
            Ok((_, c)) => c,
            Err(_) => 0,
        });
        proof {
            assert(0 <= c1 <= p0.len());
            assert(self.socket.pending() =~= p0.skip(c1));
        }
        let ghost p1 = p0.skip(c1);
        let block_length = match self.socket.read_int() {
            Ok(v) => v,
            Err(e) => {
                return Err(RsyncError::Receive(e));
            },
        };
        let ghost c2 = (match crate::socket::int_frame(p1) {
            Ok((_, c)) => c,
            Err(_) => 0,
        });
        proof {
            assert(0 <= c2 <= p1.len());
            assert(self.socket.pending() =~= p0.skip(c1 + c2));
        }
        let ghost p2 = p0.skip(c1 + c2);
        let sum2_length = match self.socket.read_int() {
            Ok(v) => v,
            Err(e) => {
                return Err(RsyncError::Receive(e));
            },
        };
        let ghost c3 = (match crate::socket::int_frame(p2) {
            Ok((_, c)) => c,
            Err(_) => 0,
        });
        proof {
            assert(0 <= c3 <= p2.len());
            assert(self.socket.pending() =~= p0.skip(c1 + c2 + c3));
        }
        let ghost p3 = p0.skip(c1 + c2 + c3);
        let remainder = match self.socket.read_int() {
            Ok(v) => v,
            Err(e) => {
                return Err(RsyncError::Receive(e));
            },
        };
        let ghost c4 = (match crate::socket::int_frame(p3) {
            Ok((_, c)) => c,
            Err(_) => 0,
        });
        let ghost hdr = c1 + c2 + c3 + c4;
        proof {
            assert(0 <= c4 <= p3.len());
            assert(self.socket.pending() =~= p0.skip(hdr));
            assert(0 <= hdr <= p0.len());
        }

        if chunk_count < 0 {
            return Err(RsyncError::NegativeChunkCount);
        }
        if sum2_length < 0 || sum2_length > 16 || (chunk_count > 0 && (block_length <= 0
            || remainder < 0 || remainder > block_length)) {
            return Err(RsyncError::Unsupported);
        }
        let ghost pc = p0.skip(hdr);
        let sums = match self.read_chunks(chunk_count, block_length, sum2_length, remainder) {
            Ok(s) => s,
            Err(e) => {
                proof {
                    let cc = (match chunks_stream(pc, chunk_count as nat, sum2_length as int) {
                        Err((_, c)) => c,
                        Ok((_, c)) => c,
                    });
                    assert(self.socket.pending() =~= p0.skip(hdr + cc));
                }
                return Err(e);
            },
        };
        proof {
            let cc = (match chunks_stream(pc, chunk_count as nat, sum2_length as int) {
                Err((_, c)) => c,
                Ok((_, c)) => c,
            });
            assert(self.socket.pending() =~= p0.skip(hdr + cc));
        }
        self.state = SessionState::SumsRead;
        Ok(sums)
    }

    /// Reads `chunk_count` block descriptors and assembles the set.
    #[verifier::rlimit(100)]
    fn read_chunks(
        &mut self,
        chunk_count: i32,
        block_length: i32,
        sum2_length: i32,
        remainder: i32,
    ) -> (r: Result<Sums, RsyncError>)
        requires
            old(self).wf(),
            old(self).socket_mux_in(),
            old(self).spec_state() == SessionState::FileListSent,
            0 <= chunk_count,
            0 <= sum2_length <= 16,
            chunk_count > 0 ==> block_length > 0 && 0 <= remainder <= block_length,
        ensures
            final(self).wf(),
            final(self).out() == old(self).out(),
            final(self).spec_seed() == old(self).spec_seed(),
            final(self).spec_modules() == old(self).spec_modules(),
            final(self).spec_state() == SessionState::FileListSent,
            match chunks_stream(old(self).pending(), chunk_count as nat, sum2_length as int) {
                Err((e, c)) => r == Err::<Sums, RsyncError>(RsyncError::Receive(e)) && 0 <= c
                    <= old(self).pending().len() && final(self).pending()
                    == old(self).pending().skip(c),
                Ok((chunks, c)) => 0 <= c <= old(self).pending().len() && (r matches Ok(s)
                    && sums_match(
                    s,
                    chunk_count as int,
                    block_length as int,
                    sum2_length as int,
                    remainder as int,
                    chunks,
                )) && final(self).pending() == old(self).pending().skip(c),
            },
    {
        let mut sums = Sums::new(chunk_count as usize, block_length, remainder, sum2_length);
        let ghost pc = self.socket.pending();
        let ghost mut collected: Seq<(int, Seq<u8>)> = Seq::empty();
        let ghost mut chunk_consumed: int = 0;
        proof {
            assert(pc.skip(0) =~= pc);
            match chunks_stream(pc, chunk_count as nat, sum2_length as int) {
                Ok((rest, c)) => {
                    assert(collected + rest =~= rest);
                },
                Err(_) => {},
            }
        }
        let mut i: i32 = 0;
        while i < chunk_count
            invariant
                0 <= i <= chunk_count,
                0 <= sum2_length <= 16,
                chunk_count > 0 ==> block_length > 0 && 0 <= remainder <= block_length,
                self.wf(),
                self.spec_state() == SessionState::FileListSent,
                self.socket_mux_in(),
                self.out() == old(self).out(),
                self.spec_seed() == old(self).spec_seed(),
                self.spec_modules() == old(self).spec_modules(),
                pc == old(self).pending(),
                0 <= chunk_consumed,
                self.pending() == pc.skip(chunk_consumed),
                chunk_consumed <= pc.len(),
                collected.len() == i as int,
                sums.block_length == block_length,
                sums.sum2_length == sum2_length,
                sums.remainder == remainder,
                sums.sum_chunks@.len() == i as int,
                forall|k: int|
                    0 <= k < i ==> {
                        let cb = #[trigger] sums.sum_chunks@[k];
                        &&& cb.checksum as int == sum1_bits(collected[k].0)
                        &&& cb.sum2@ == collected[k].1
                        &&& cb.offset as int == k * (block_length as int)
                        &&& cb.length as int == (if k == chunk_count - 1 && remainder != 0 {
                            remainder as int
                        } else {
                            block_length as int
                        })
                        &&& cb.chain == 0
                        &&& cb.flags == 0
                    },
                match chunks_stream(
                    pc.skip(chunk_consumed),
                    (chunk_count - i) as nat,
                    sum2_length as int,
                ) {
                    Ok((rest, c)) => chunks_stream(pc, chunk_count as nat, sum2_length as int)
                        == Ok::<(Seq<(int, Seq<u8>)>, int), (ReceiveError, int)>(
                        (collected + rest, chunk_consumed + c),
                    ),
                    Err((e, c)) => chunks_stream(pc, chunk_count as nat, sum2_length as int)
                        == Err::<(Seq<(int, Seq<u8>)>, int), (ReceiveError, int)>(
                        (e, chunk_consumed + c),
                    ),
                },
            decreases chunk_count - i,
        {
            let ghost cur = pc.skip(chunk_consumed);
            let sum1 = match self.socket.read_int() {
                Ok(v) => v,
                Err(e) => {
                    proof {
                        assert(self.pending() =~= pc.skip(
                            chunk_consumed + (match crate::socket::int_frame(cur) {
                                Ok((_, c)) => c,
                                Err((_, c)) => c,
                            }),
                        ));
                    }
                    return Err(RsyncError::Receive(e));
                },
            };
            let ghost ci = (match crate::socket::int_frame(cur) {
                Ok((_, c)) => c,
                Err(_) => 0,
            });
            proof {
                assert(self.pending() =~= pc.skip(chunk_consumed + ci));
            }
            let ghost cur2 = pc.skip(chunk_consumed + ci);
            let msg = match self.socket.read_message() {
                Ok(m) => m,
                Err(e) => {
                    proof {
                        assert(cur.skip(ci) =~= cur2);
                        assert(self.pending() =~= pc.skip(
                            chunk_consumed + ci + (match crate::socket::frame_outcome(cur2) {
                                Ok((_, c)) => c,
                                Err((_, c)) => c,
                            }),
                        ));
                    }
                    return Err(RsyncError::Receive(e));
                },
            };
            let ghost cd = (match crate::socket::frame_outcome(cur2) {
                Ok((_, c)) => c,
                Err(_) => 0,
            });
            proof {
                assert(cur.skip(ci) =~= cur2);
                assert(self.pending() =~= pc.skip(chunk_consumed + ci + cd));
            }
            let payload = match msg {
                RsyncMessage::Data { data } => data,
                _ => {
                    return Err(RsyncError::Receive(ReceiveError::Invalid));
                },
            };
            if payload.len() < sum2_length as usize {
                return Err(RsyncError::Receive(ReceiveError::Invalid));
            }
            let sum2 = vstd::slice::slice_to_vec(
                vstd::slice::slice_subrange(payload.as_slice(), 0, sum2_length as usize),
            );
            proof {
                assert(sum2@ =~= payload@.take(sum2_length as int));
            }
            let checksum: u32 = if sum1 >= 0 {
                sum1 as u32
            } else {
                ((sum1 as i64) + 0x100000000) as u32
            };
            proof {
                assert((i as int) * (block_length as int) < 0x80000000 * 0x80000000)
                    by (nonlinear_arith)
                    requires
                        0 <= (i as int) < 0x80000000,
                        0 <= (block_length as int) < 0x80000000,
                ;
                assert((i as int) * (block_length as int) >= 0) by (nonlinear_arith)
                    requires
                        0 <= (i as int),
                        0 <= (block_length as int),
                ;
            }
            let offset: u64 = (i as u64) * (block_length as u64);
            let length: i32 = if i + 1 < chunk_count || remainder == 0 {
                block_length
            } else {
                remainder
            };
            let ghost pre_collected = collected;
            sums.sum_chunks.push(SumBuf { offset, length, checksum, chain: 0, flags: 0, sum2 });
            proof {
                assert(crate::socket::int_frame(cur) == Ok::<(int, int), (ReceiveError, int)>(
                    (sum1 as int, ci),
                ));
                assert(cur.skip(ci) == cur2);
                assert(crate::socket::frame_outcome(cur2) == Ok::<
                    ((u8, Seq<u8>), int),
                    (ReceiveError, int),
                >(((0u8, payload@), cd)));
                assert(data_frame(cur.skip(ci)) == Ok::<(Seq<u8>, int), (ReceiveError, int)>(
                    (payload@, cd),
                ));
                assert(ci <= cur.len());
                assert(cd <= cur2.len());
                assert(cur.skip(ci + cd) =~= pc.skip(chunk_consumed + ci + cd));
                collected = collected.push((sum1 as int, payload@.take(sum2_length as int)));
                chunk_consumed = chunk_consumed + ci + cd;
                match chunks_stream(
                    pc.skip(chunk_consumed),
                    (chunk_count - (i + 1)) as nat,
                    sum2_length as int,
                ) {
                    Ok((rest, c)) => {
                        assert(pre_collected + (seq![
                            (sum1 as int, payload@.take(sum2_length as int)),
                        ] + rest) =~= collected + rest);
                    },
                    Err(_) => {},
                }
            }
            i = i + 1;
        }
        proof {
            assert(chunks_stream(pc.skip(chunk_consumed), 0, sum2_length as int) == Ok::<
                (Seq<(int, Seq<u8>)>, int),
                (ReceiveError, int),
            >((Seq::<(int, Seq<u8>)>::empty(), 0)));
            assert(collected + Seq::<(int, Seq<u8>)>::empty() =~= collected);
        }
        let total: u64 = if chunk_count == 0 {
            0
        } else {
            let last: i32 = if remainder != 0 {
                remainder
            } else {
                block_length
            };
            proof {
                assert(((chunk_count - 1) as int) * (block_length as int) < 0x80000000
                    * 0x80000000) by (nonlinear_arith)
                    requires
                        0 <= ((chunk_count - 1) as int) < 0x80000000,
                        0 <= (block_length as int) < 0x80000000,
                ;
                assert(((chunk_count - 1) as int) * (block_length as int) >= 0)
                    by (nonlinear_arith)
                    requires
                        0 <= ((chunk_count - 1) as int),
                        0 <= (block_length as int),
                ;
            }
            ((chunk_count - 1) as u64) * (block_length as u64) + (last as u64)
        };
        sums.total_file_length = total;
        Ok(sums)
    }
}

/// "@RSYNCD: " as a fresh byte vector.
fn rsyncd_prefix_vec() -> (r: Vec<u8>)
    ensures
        r@ == rsyncd_prefix_bytes(),
{
    let mut v: Vec<u8> = Vec::new();
    v.push(0x40);
    v.push(0x52);
    v.push(0x53);
    v.push(0x59);
    v.push(0x4E);
    v.push(0x43);
    v.push(0x44);
    v.push(0x3A);
    v.push(0x20);
    proof {
        assert(v@ =~= rsyncd_prefix_bytes());
    }
    v
}

/// The greeting line as a fresh byte vector.
fn greeting_vec() -> (r: Vec<u8>)
    ensures
        r@ == greeting_bytes(),
{
    let mut v = rsyncd_prefix_vec();
    v.push(0x33);
    v.push(0x31);
    v.push(0x2E);
    v.push(0x30);
    v.push(0x0A);
    proof {
        assert(v@ =~= greeting_bytes());
    }
    v
}

} // verus!
