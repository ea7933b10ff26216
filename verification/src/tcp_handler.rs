//! The TCP listening side of a forwarding rule: the decisions of the bridge
//! that serves one accepted client connection, either spliced to a TCP
//! remote or adapted to a UDP remote.
//!
//! The bridge does no I/O. Its owner performs each [`TcpAction`] and reports
//! what happened as the next [`TcpEvent`].

use vstd::prelude::*;
use crate::config::Protocol;

verus! {

/// How long the bridge waits for a datagram from the remote before it reads
/// from the client again, in milliseconds.
pub const REPLY_WAIT_MS: u64 = 100;

/// Where the bridge of one client connection stands.
#[derive(Debug, Clone, Copy, PartialEq, Eq, Structural)]
pub enum TcpPhase {
    /// The way to the remote is being opened.
    Connecting,
    /// Bytes move between the client and the remote.
    Relaying,
    /// Both sides are torn down, for good.
    Closed,
}

/// How a connection came to its end.
#[derive(Debug, Clone, Copy, PartialEq, Eq, Structural)]
pub enum TcpEnd {
    /// A side reached its end of stream.
    Finished,
    /// The remote could not be reached, or a read or a write failed.
    Failed,
    /// The rule's protocol has no TCP listening side.
    InvalidProtocol,
}

/// What the owner of a bridge reports to it.
#[derive(Debug)]
pub enum TcpEvent {
    /// The way to the remote is open.
    RemoteOpened,
    /// The way to the remote could not be opened.
    RemoteOpenFailed,
    /// The splice is over: one direction reached its end of stream.
    SpliceFinished,
    /// The splice is over: a read or a write failed.
    SpliceFailed,
    /// One read from the client gave these bytes. No bytes are the end of
    /// the client's stream.
    ClientData { payload: Vec<u8> },
    /// The client has nothing to read right now.
    ClientIdle,
    /// Reading from the client failed.
    ClientReadFailed,
    /// The datagram handed out went to the remote.
    DatagramSent,
    /// The datagram handed out could not be sent.
    DatagramFailed,
    /// The remote sent this datagram within the wait. A datagram without
    /// bytes is no answer.
    Reply { payload: Vec<u8> },
    /// The wait went by without a datagram from the remote.
    ReplyTimeout,
    /// Receiving from the remote failed.
    ReplyFailed,
    /// The bytes handed out were written to the client.
    ClientWritten,
    /// Writing to the client failed.
    ClientWriteFailed,
}

/// An event as a mathematical value.
pub enum TcpEventView {
    RemoteOpened,
    RemoteOpenFailed,
    SpliceFinished,
    SpliceFailed,
    ClientData { payload: Seq<u8> },
    ClientIdle,
    ClientReadFailed,
    DatagramSent,
    DatagramFailed,
    Reply { payload: Seq<u8> },
    ReplyTimeout,
    ReplyFailed,
    ClientWritten,
    ClientWriteFailed,
}

impl View for TcpEvent {
    type V = TcpEventView;

    open spec fn view(&self) -> TcpEventView {
        match *self {
            TcpEvent::RemoteOpened => TcpEventView::RemoteOpened,
            TcpEvent::RemoteOpenFailed => TcpEventView::RemoteOpenFailed,
            TcpEvent::SpliceFinished => TcpEventView::SpliceFinished,
            TcpEvent::SpliceFailed => TcpEventView::SpliceFailed,
            TcpEvent::ClientData { payload } => TcpEventView::ClientData { payload: payload@ },
            TcpEvent::ClientIdle => TcpEventView::ClientIdle,
            TcpEvent::ClientReadFailed => TcpEventView::ClientReadFailed,
            TcpEvent::DatagramSent => TcpEventView::DatagramSent,
            TcpEvent::DatagramFailed => TcpEventView::DatagramFailed,
            TcpEvent::Reply { payload } => TcpEventView::Reply { payload: payload@ },
            TcpEvent::ReplyTimeout => TcpEventView::ReplyTimeout,
            TcpEvent::ReplyFailed => TcpEventView::ReplyFailed,
            TcpEvent::ClientWritten => TcpEventView::ClientWritten,
            TcpEvent::ClientWriteFailed => TcpEventView::ClientWriteFailed,
        }
    }
}

/// What the bridge asks its owner to do next.
#[derive(Debug)]
pub enum TcpAction {
    /// Open a TCP connection to the remote.
    ConnectRemote,
    /// Open a UDP socket on any local port and connect it to the remote.
    OpenDatagramSocket,
    /// Copy bytes from the client to the remote and from the remote to the
    /// client, both ways at once and unchanged, until one direction reaches
    /// its end of stream or fails.
    Splice,
    /// Read once from the client.
    ReadClient,
    /// Send the bytes to the remote as one datagram.
    SendDatagram { payload: Vec<u8> },
    /// Wait for a datagram from the remote, `wait_ms` milliseconds at most.
    AwaitReply { wait_ms: u64 },
    /// Write all the bytes to the client.
    WriteClient { payload: Vec<u8> },
    /// Tear down both sides; the bridge is done.
    Close { end: TcpEnd },
}

/// An action as a mathematical value.
pub enum TcpActionView {
    ConnectRemote,
    OpenDatagramSocket,
    Splice,
    ReadClient,
    SendDatagram { payload: Seq<u8> },
    AwaitReply { wait_ms: u64 },
    WriteClient { payload: Seq<u8> },
    Close { end: TcpEnd },
}

impl View for TcpAction {
    type V = TcpActionView;

    open spec fn view(&self) -> TcpActionView {
        match *self {
            TcpAction::ConnectRemote => TcpActionView::ConnectRemote,
            TcpAction::OpenDatagramSocket => TcpActionView::OpenDatagramSocket,
            TcpAction::Splice => TcpActionView::Splice,
            TcpAction::ReadClient => TcpActionView::ReadClient,
            TcpAction::SendDatagram { payload } => TcpActionView::SendDatagram { payload: payload@ },
            TcpAction::AwaitReply { wait_ms } => TcpActionView::AwaitReply { wait_ms },
            TcpAction::WriteClient { payload } => TcpActionView::WriteClient { payload: payload@ },
            TcpAction::Close { end } => TcpActionView::Close { end },
        }
    }
}

/// The message with which a bridge refuses a rule whose protocol has no TCP
/// listening side.
pub fn invalid_protocol_message() -> (r: &'static str)
    ensures
        r@ == "Invalid protocol for TCP handler"@,
{
    "Invalid protocol for TCP handler"
}

/// The bridge of one accepted client connection.
#[derive(Debug, Clone, Copy, PartialEq, Eq, Structural)]
pub struct TcpBridge {
    pub protocol: Protocol,
    pub phase: TcpPhase,
}

/// The bridge torn down.
pub open spec fn spec_closed(s: TcpBridge) -> TcpBridge {
    TcpBridge { phase: TcpPhase::Closed, ..s }
}

/// The bridge of a connection that was just accepted, and the first thing
/// to do for it: open the way to the remote, by TCP or by UDP as the rule's
/// protocol says. A rule whose protocol has no TCP listening side gets a
/// closed bridge.
pub open spec fn spec_accept(protocol: Protocol) -> (TcpBridge, TcpActionView) {
    match protocol {
        Protocol::Tcp => (
            TcpBridge { protocol, phase: TcpPhase::Connecting },
            TcpActionView::ConnectRemote,
        ),
        Protocol::TcpToUdp => (
            TcpBridge { protocol, phase: TcpPhase::Connecting },
            TcpActionView::OpenDatagramSocket,
        ),
        _ => (
            TcpBridge { protocol, phase: TcpPhase::Closed },
            TcpActionView::Close { end: TcpEnd::InvalidProtocol },
        ),
    }
}

/// What an event does to a bridge that is opening the way to the remote.
/// Once the way is open the relaying starts; if it cannot be opened the
/// connection fails, and nothing is tried again.
pub open spec fn spec_step_connecting(s: TcpBridge, event: TcpEventView) -> (
    TcpBridge,
    TcpActionView,
) {
    match event {
        TcpEventView::RemoteOpened => (
            TcpBridge { phase: TcpPhase::Relaying, ..s },
            if s.protocol == Protocol::Tcp {
                TcpActionView::Splice
            } else {
                TcpActionView::ReadClient
            },
        ),
        _ => (spec_closed(s), TcpActionView::Close { end: TcpEnd::Failed }),
    }
}

/// What an event does to a bridge that splices the client to a TCP remote:
/// the splice ends the connection, however it ends.
pub open spec fn spec_step_splicing(s: TcpBridge, event: TcpEventView) -> (TcpBridge, TcpActionView) {
    match event {
        TcpEventView::SpliceFinished => (
            spec_closed(s),
            TcpActionView::Close { end: TcpEnd::Finished },
        ),
        _ => (spec_closed(s), TcpActionView::Close { end: TcpEnd::Failed }),
    }
}

/// What an event does to a bridge that adapts the client to a UDP remote.
///
/// The bytes of one read from the client go out as one datagram; a read
/// without bytes is the end of the client's stream and of the connection.
/// After a datagram went out, and when the client has nothing to read, the
/// bridge waits a tenth of a second for a datagram from the remote. The
/// bytes of a datagram from the remote are written to the client; without
/// one, and after the write, the bridge reads from the client again. Any
/// failure ends the connection.
pub open spec fn spec_step_adapting(s: TcpBridge, event: TcpEventView) -> (TcpBridge, TcpActionView) {
    match event {
        TcpEventView::ClientData { payload } => if payload.len() > 0 {
            (s, TcpActionView::SendDatagram { payload })
        } else {
            (spec_closed(s), TcpActionView::Close { end: TcpEnd::Finished })
        },
        TcpEventView::ClientIdle => (s, TcpActionView::AwaitReply { wait_ms: REPLY_WAIT_MS }),
        TcpEventView::DatagramSent => (s, TcpActionView::AwaitReply { wait_ms: REPLY_WAIT_MS }),
        TcpEventView::Reply { payload } => if payload.len() > 0 {
            (s, TcpActionView::WriteClient { payload })
        } else {
            (s, TcpActionView::ReadClient)
        },
        TcpEventView::ReplyTimeout => (s, TcpActionView::ReadClient),
        TcpEventView::ClientWritten => (s, TcpActionView::ReadClient),
        _ => (spec_closed(s), TcpActionView::Close { end: TcpEnd::Failed }),
    }
}

/// The bridge after an event, and what it asks for next. A closed bridge
/// stays closed.
pub open spec fn spec_step(s: TcpBridge, event: TcpEventView) -> (TcpBridge, TcpActionView) {
    match s.phase {
        TcpPhase::Closed => (
            s,
            TcpActionView::Close {
                end: if s.protocol == Protocol::Tcp || s.protocol == Protocol::TcpToUdp {
                    TcpEnd::Finished
                } else {
                    TcpEnd::InvalidProtocol
                },
            },
        ),
        TcpPhase::Connecting => match s.protocol {
            Protocol::Tcp | Protocol::TcpToUdp => spec_step_connecting(s, event),
            _ => (spec_closed(s), TcpActionView::Close { end: TcpEnd::InvalidProtocol }),
        },
        TcpPhase::Relaying => match s.protocol {
            Protocol::Tcp => spec_step_splicing(s, event),
            Protocol::TcpToUdp => spec_step_adapting(s, event),
            _ => (spec_closed(s), TcpActionView::Close { end: TcpEnd::InvalidProtocol }),
        },
    }
}

impl TcpBridge {
    /// The bridge of a connection that was just accepted, and the first
    /// thing to do for it.
    pub fn accept(protocol: Protocol) -> (r: (TcpBridge, TcpAction))
        ensures
            (r.0, r.1@) == spec_accept(protocol),
    {
        match protocol {
            Protocol::Tcp => (
                TcpBridge { protocol, phase: TcpPhase::Connecting },
                TcpAction::ConnectRemote,
            ),
            Protocol::TcpToUdp => (
                TcpBridge { protocol, phase: TcpPhase::Connecting },
                TcpAction::OpenDatagramSocket,
            ),
            _ => (
                TcpBridge { protocol, phase: TcpPhase::Closed },
                TcpAction::Close { end: TcpEnd::InvalidProtocol },
            ),
        }
    }

    /// Takes in one event and says what to do next.
    pub fn step(&mut self, event: TcpEvent) -> (action: TcpAction)
        ensures
            (*final(self), action@) == spec_step(*old(self), event@),
    {
        let valid = match self.protocol {
            Protocol::Tcp | Protocol::TcpToUdp => true,
            _ => false,
        };
        let splicing = match self.protocol {
            Protocol::Tcp => true,
            _ => false,
        };
        match self.phase {
            TcpPhase::Closed => {
                return TcpAction::Close {
                    end: if valid {
                        TcpEnd::Finished
                    } else {
                        TcpEnd::InvalidProtocol
                    },
                };
            },
            _ => {},
        }
        if !valid {
            self.phase = TcpPhase::Closed;
            return TcpAction::Close { end: TcpEnd::InvalidProtocol };
        }
        match self.phase {
            TcpPhase::Connecting => match event {
                TcpEvent::RemoteOpened => {
                    self.phase = TcpPhase::Relaying;
                    if splicing {
                        TcpAction::Splice
                    } else {
                        TcpAction::ReadClient
                    }
                },
                _ => {
                    self.phase = TcpPhase::Closed;
                    TcpAction::Close { end: TcpEnd::Failed }
                },
            },
            _ => {
                if splicing {
                    self.phase = TcpPhase::Closed;
                    match event {
                        TcpEvent::SpliceFinished => TcpAction::Close { end: TcpEnd::Finished },
                        _ => TcpAction::Close { end: TcpEnd::Failed },
                    }
                } else {
                    match event {
                        TcpEvent::ClientData { payload } => {
                            if payload.len() > 0 {
                                TcpAction::SendDatagram { payload }
                            } else {
                                self.phase = TcpPhase::Closed;
                                TcpAction::Close { end: TcpEnd::Finished }
                            }
                        },
                        TcpEvent::ClientIdle => TcpAction::AwaitReply { wait_ms: REPLY_WAIT_MS },
                        TcpEvent::DatagramSent => TcpAction::AwaitReply { wait_ms: REPLY_WAIT_MS },
                        TcpEvent::Reply { payload } => {
                            if payload.len() > 0 {
                                TcpAction::WriteClient { payload }
                            } else {
                                TcpAction::ReadClient
                            }
                        },
                        TcpEvent::ReplyTimeout => TcpAction::ReadClient,
                        TcpEvent::ClientWritten => TcpAction::ReadClient,
                        _ => {
                            self.phase = TcpPhase::Closed;
                            TcpAction::Close { end: TcpEnd::Failed }
                        },
                    }
                }
            },
        }
    }
}

/// A closed bridge stays closed: whatever comes in, it asks for nothing but
/// to be closed.
pub proof fn lemma_closed_is_final(s: TcpBridge, event: TcpEventView)
    requires
        s.phase == TcpPhase::Closed,
    ensures
        spec_step(s, event).0 == s,
        spec_step(s, event).1 is Close,
{
}

/// A bridge moves forward only: from connecting to relaying to closed, and
/// it never leaves its rule's protocol.
pub proof fn lemma_phases_advance(s: TcpBridge, event: TcpEventView)
    ensures
        spec_step(s, event).0.protocol == s.protocol,
        s.phase == TcpPhase::Relaying ==> spec_step(s, event).0.phase != TcpPhase::Connecting,
        spec_step(s, event).0.phase == TcpPhase::Closed <==> spec_step(s, event).1 is Close,
{
}

/// TCP to TCP. An accepted connection asks for a TCP connection to the
/// remote; once that is open the two are spliced; when the splice ends,
/// because either side reached its end or failed, the connection is closed
/// on both sides. A remote that cannot be reached closes the connection at
/// once, as failed.
pub proof fn lemma_tcp_relay()
    ensures
        spec_accept(Protocol::Tcp).1 == TcpActionView::ConnectRemote,
        spec_accept(Protocol::Tcp).0.phase == TcpPhase::Connecting,
        spec_step(spec_accept(Protocol::Tcp).0, TcpEventView::RemoteOpened) == (
            TcpBridge { protocol: Protocol::Tcp, phase: TcpPhase::Relaying },
            TcpActionView::Splice,
        ),
        spec_step(spec_accept(Protocol::Tcp).0, TcpEventView::RemoteOpenFailed) == (
            TcpBridge { protocol: Protocol::Tcp, phase: TcpPhase::Closed },
            TcpActionView::Close { end: TcpEnd::Failed },
        ),
        spec_step(
            TcpBridge { protocol: Protocol::Tcp, phase: TcpPhase::Relaying },
            TcpEventView::SpliceFinished,
        ) == (
            TcpBridge { protocol: Protocol::Tcp, phase: TcpPhase::Closed },
            TcpActionView::Close { end: TcpEnd::Finished },
        ),
        spec_step(
            TcpBridge { protocol: Protocol::Tcp, phase: TcpPhase::Relaying },
            TcpEventView::SpliceFailed,
        ) == (
            TcpBridge { protocol: Protocol::Tcp, phase: TcpPhase::Closed },
            TcpActionView::Close { end: TcpEnd::Failed },
        ),
{
}

/// TCP to UDP. What one read from the client gave goes to the remote as
/// one datagram with the same bytes, and what one datagram from the remote
/// held is written to the client with the same bytes.
pub proof fn lemma_tcp_to_udp_relay(payload: Seq<u8>)
    requires
        payload.len() > 0,
    ensures
        ({
            let relaying = TcpBridge { protocol: Protocol::TcpToUdp, phase: TcpPhase::Relaying };
            &&& spec_step(relaying, TcpEventView::ClientData { payload }) == (
                relaying,
                TcpActionView::SendDatagram { payload },
            )
            &&& spec_step(relaying, TcpEventView::DatagramSent) == (
                relaying,
                TcpActionView::AwaitReply { wait_ms: 100 },
            )
            &&& spec_step(relaying, TcpEventView::Reply { payload }) == (
                relaying,
                TcpActionView::WriteClient { payload },
            )
            &&& spec_step(relaying, TcpEventView::ReplyTimeout) == (
                relaying,
                TcpActionView::ReadClient,
            )
            &&& spec_step(relaying, TcpEventView::ClientData { payload: Seq::empty() }) == (
                spec_closed(relaying),
                TcpActionView::Close { end: TcpEnd::Finished },
            )
        }),
{
}

} // verus!
