//! Connection state machine: the initiator (client) and responder (server)
//! roles. Each protocol step is split in two layers: a pure transition
//! function with an exact contract (what packet goes out and how the state
//! changes, for every received packet), and a driving routine that runs the
//! step over a stream with the bounded retry engine.

use vstd::prelude::*;
use rand::Rng;
use crate::codec::{
    be32, be32_val, bytes_to_u32, make_packet, u32_to_be_bytes, verify, Packet, PacketType,
    PacketView,
};
use crate::errors::{FrameError, TransferError};
use crate::channel::PacketStream;

verus! {

/// Initiator states: CLOSED -> SYN_SENT -> ESTABLISHED -> TRANSFERRING ->
/// FIN_WAIT -> CLOSED, with ERROR reachable from any state. The FIN_WAIT
/// phase has two halves: awaiting the peer's ACK of our FIN, then awaiting
/// the peer's own FIN.
#[derive(Copy, Clone, PartialEq, Eq, Structural, Debug)]
pub enum ClientState {
    Closed,
    SynSent,
    Established,
    Transferring,
    FinWaitAck,
    FinWaitFin,
    Error,
}

/// Responder states: LISTEN -> SYN_RECEIVED -> ESTABLISHED -> RECEIVING ->
/// CLOSE_WAIT -> CLOSED, with ERROR reachable from any state.
#[derive(Copy, Clone, PartialEq, Eq, Structural, Debug)]
pub enum ServerState {
    Listen,
    SynReceived,
    Established,
    Receiving,
    CloseWait,
    Closed,
    Error,
}

/// The sequence number that follows `s`, wrapping at the 32-bit boundary
/// (wraparound is otherwise unhandled: an accepted limitation for transfers
/// below 2^32 chunks).
pub open spec fn next_seq(s: u32) -> u32 {
    if s == u32::MAX {
        0
    } else {
        (s + 1) as u32
    }
}

fn next_seq_exec(s: u32) -> (r: u32)
    ensures
        r == next_seq(s),
{
    if s == u32::MAX {
        0
    } else {
        s + 1
    }
}

/// What the client makes of the peer's answer to a DATA packet.
#[derive(Copy, Clone, PartialEq, Eq, Structural, Debug)]
pub enum SendStatus {
    /// The peer acknowledged the chunk; the local sequence advanced.
    Accepted,
    /// The peer reported an integrity failure; the same chunk must go out
    /// again as a RETRANSMISSION, against the same retry budget.
    NakRetry,
}

/// Relies on rand::thread_rng and rand::Rng::gen to draw the responder's
/// initial sequence number; the value is arbitrary and nothing is promised
/// of it.
#[verifier::external_body]
fn random_u32() -> u32 {
    rand::thread_rng().gen()
}

/// The initiator role of one connection.
pub struct Client {
    pub state: ClientState,
    pub local_sequence: u32,
    pub peer_sequence: u32,
}

impl Client {
    pub fn new() -> (r: Client)
        ensures
            r.state == ClientState::Closed,
            r.local_sequence == 0,
            r.peer_sequence == 0,
    {
        Client { state: ClientState::Closed, local_sequence: 0, peer_sequence: 0 }
    }

    /// Opens the handshake: the SYN packet carrying the initiator's chosen
    /// initial sequence number.
    pub fn begin_connect(&mut self) -> (p: Packet)
        requires
            old(self).state == ClientState::Closed,
        ensures
            final(self).state == ClientState::SynSent,
            final(self).local_sequence == old(self).local_sequence,
            final(self).peer_sequence == old(self).peer_sequence,
            p@ == make_packet(PacketType::Syn, old(self).local_sequence, Seq::<u8>::empty()),
    {
        self.state = ClientState::SynSent;
        let p = Packet::new(PacketType::Syn, self.local_sequence, Vec::new());
        p
    }

    /// Handles the handshake response. A SYN_ACK whose payload carries the
    /// responder's initial sequence number yields the acknowledging ACK
    /// (echoing that number in its sequence field) and the ESTABLISHED
    /// state; a SYN_ACK with a short payload is a malformed frame; any
    /// other kind is a protocol violation.
    pub fn on_connect_response(&mut self, response: &Packet) -> (r: Result<Packet, TransferError>)
        requires
            old(self).state == ClientState::SynSent,
        ensures
            response@.packet_type == PacketType::SynAck && response@.data.len() >= 4 ==> {
                &&& r matches Ok(ack) && ack@ == make_packet(
                    PacketType::Ack,
                    final(self).peer_sequence,
                    Seq::<u8>::empty(),
                )
                &&& final(self).state == ClientState::Established
                &&& final(self).peer_sequence == be32_val(
                    response@.data[0],
                    response@.data[1],
                    response@.data[2],
                    response@.data[3],
                )
                &&& final(self).local_sequence == final(self).peer_sequence
            },
            response@.packet_type == PacketType::SynAck && response@.data.len() < 4 ==> {
                &&& r == Result::<Packet, TransferError>::Err(
                    TransferError::Frame(FrameError::Truncated),
                )
                &&& final(self).state == ClientState::Error
            },
            response@.packet_type != PacketType::SynAck ==> {
                &&& r == Result::<Packet, TransferError>::Err(TransferError::ProtocolViolation)
                &&& final(self).state == ClientState::Error
            },
    {
        if !matches!(response.packet_type, PacketType::SynAck) {
            self.state = ClientState::Error;
            return Err(TransferError::ProtocolViolation);
        }
        match bytes_to_u32(&response.data, 0) {
            Ok(isn) => {
                self.peer_sequence = isn;
                self.local_sequence = isn;
                self.state = ClientState::Established;
                Ok(Packet::new(PacketType::Ack, isn, Vec::new()))
            },
            Err(e) => {
                self.state = ClientState::Error;
                Err(TransferError::Frame(e))
            },
        }
    }

    /// Frames the next payload chunk as a DATA packet with the next local
    /// sequence number. The sequence advances only when the peer
    /// acknowledges.
    pub fn begin_send(&mut self, chunk: &Vec<u8>) -> (p: Packet)
        requires
            old(self).state == ClientState::Established || old(self).state
                == ClientState::Transferring,
            chunk@.len() + 9 <= u32::MAX,
        ensures
            final(self).state == ClientState::Transferring,
            final(self).local_sequence == old(self).local_sequence,
            final(self).peer_sequence == old(self).peer_sequence,
            p@ == make_packet(PacketType::Data, next_seq(old(self).local_sequence), chunk@),
    {
        self.state = ClientState::Transferring;
        Packet::new(PacketType::Data, next_seq_exec(self.local_sequence), clone_bytes(chunk))
    }

    /// Frames the same chunk again as a RETRANSMISSION with the same
    /// sequence number, after a NAK.
    pub fn begin_retransmit(&mut self, chunk: &Vec<u8>) -> (p: Packet)
        requires
            old(self).state == ClientState::Transferring,
            chunk@.len() + 9 <= u32::MAX,
        ensures
            *final(self) == *old(self),
            p@ == make_packet(
                PacketType::Retransmission,
                next_seq(old(self).local_sequence),
                chunk@,
            ),
    {
        Packet::new(PacketType::Retransmission, next_seq_exec(self.local_sequence), clone_bytes(chunk))
    }

    /// Handles the peer's answer to a DATA or RETRANSMISSION packet: ACK
    /// accepts the chunk and advances the local sequence, NAK asks for a
    /// retransmission, anything else is a protocol violation.
    pub fn on_send_response(&mut self, response: &Packet) -> (r: Result<SendStatus, TransferError>)
        requires
            old(self).state == ClientState::Transferring,
        ensures
            response@.packet_type == PacketType::Ack ==> {
                &&& r == Result::<SendStatus, TransferError>::Ok(SendStatus::Accepted)
                &&& final(self).state == ClientState::Transferring
                &&& final(self).local_sequence == next_seq(old(self).local_sequence)
                &&& final(self).peer_sequence == old(self).peer_sequence
            },
            response@.packet_type == PacketType::Nak ==> {
                &&& r == Result::<SendStatus, TransferError>::Ok(SendStatus::NakRetry)
                &&& *final(self) == *old(self)
            },
            response@.packet_type != PacketType::Ack && response@.packet_type != PacketType::Nak
                ==> {
                &&& r == Result::<SendStatus, TransferError>::Err(TransferError::ProtocolViolation)
                &&& final(self).state == ClientState::Error
            },
    {
        match response.packet_type {
            PacketType::Ack => {
                self.local_sequence = next_seq_exec(self.local_sequence);
                Ok(SendStatus::Accepted)
            },
            PacketType::Nak => Ok(SendStatus::NakRetry),
            _ => {
                self.state = ClientState::Error;
                Err(TransferError::ProtocolViolation)
            },
        }
    }

    /// Opens the teardown: the FIN packet.
    pub fn begin_close(&mut self) -> (p: Packet)
        requires
            old(self).state == ClientState::Established || old(self).state
                == ClientState::Transferring,
        ensures
            final(self).state == ClientState::FinWaitAck,
            final(self).local_sequence == old(self).local_sequence,
            final(self).peer_sequence == old(self).peer_sequence,
            p@ == make_packet(
                PacketType::Fin,
                next_seq(old(self).local_sequence),
                Seq::<u8>::empty(),
            ),
    {
        self.state = ClientState::FinWaitAck;
        Packet::new(PacketType::Fin, next_seq_exec(self.local_sequence), Vec::new())
    }

    /// Handles the peer's ACK of our FIN; anything but ACK is a protocol
    /// violation.
    pub fn on_close_ack(&mut self, response: &Packet) -> (r: Result<(), TransferError>)
        requires
            old(self).state == ClientState::FinWaitAck,
        ensures
            response@.packet_type == PacketType::Ack ==> {
                &&& r is Ok
                &&& final(self).state == ClientState::FinWaitFin
                &&& final(self).local_sequence == old(self).local_sequence
                &&& final(self).peer_sequence == old(self).peer_sequence
            },
            response@.packet_type != PacketType::Ack ==> {
                &&& r == Result::<(), TransferError>::Err(TransferError::ProtocolViolation)
                &&& final(self).state == ClientState::Error
            },
    {
        if matches!(response.packet_type, PacketType::Ack) {
            self.state = ClientState::FinWaitFin;
            Ok(())
        } else {
            self.state = ClientState::Error;
            Err(TransferError::ProtocolViolation)
        }
    }

    /// Handles the peer's own FIN: answers with the final ACK and reaches
    /// CLOSED; anything but FIN is a protocol violation.
    pub fn on_close_fin(&mut self, response: &Packet) -> (r: Result<Packet, TransferError>)
        requires
            old(self).state == ClientState::FinWaitFin,
        ensures
            response@.packet_type == PacketType::Fin ==> {
                &&& r matches Ok(ack) && ack@ == make_packet(
                    PacketType::Ack,
                    next_seq(old(self).local_sequence),
                    Seq::<u8>::empty(),
                )
                &&& final(self).state == ClientState::Closed
                &&& final(self).local_sequence == old(self).local_sequence
                &&& final(self).peer_sequence == old(self).peer_sequence
            },
            response@.packet_type != PacketType::Fin ==> {
                &&& r == Result::<Packet, TransferError>::Err(TransferError::ProtocolViolation)
                &&& final(self).state == ClientState::Error
            },
    {
        if matches!(response.packet_type, PacketType::Fin) {
            self.state = ClientState::Closed;
            Ok(Packet::new(PacketType::Ack, next_seq_exec(self.local_sequence), Vec::new()))
        } else {
            self.state = ClientState::Error;
            Err(TransferError::ProtocolViolation)
        }
    }
}

/// What the responder does with one in-transfer packet.
pub enum ServerReply {
    /// A DATA or RETRANSMISSION packet passed the integrity check: its
    /// payload was appended and this ACK goes back.
    Accepted(Packet),
    /// The integrity check failed: nothing was accepted and this NAK goes
    /// back.
    Rejected(Packet),
    /// The peer asked to close; the teardown follows.
    FinReceived,
}

/// The responder role of one connection.
pub struct Server {
    pub state: ServerState,
    pub local_sequence: u32,
    pub peer_sequence: u32,
    pub received: Vec<u8>,
}

impl Server {
    /// Creates a listening responder with a random initial sequence
    /// number.
    pub fn new() -> (r: Server)
        ensures
            r.state == ServerState::Listen,
            r.peer_sequence == 0,
            r.received@ == Seq::<u8>::empty(),
    {
        let sequence_number = random_u32();
        Server {
            state: ServerState::Listen,
            local_sequence: sequence_number,
            peer_sequence: 0,
            received: Vec::new(),
        }
    }

    /// Handles the first packet of a connection. A SYN records the
    /// initiator's sequence number and yields the SYN_ACK whose payload
    /// carries the responder's own initial sequence number; anything else
    /// is a protocol violation.
    pub fn on_syn(&mut self, request: &Packet) -> (r: Result<Packet, TransferError>)
        requires
            old(self).state == ServerState::Listen,
        ensures
            request@.packet_type == PacketType::Syn ==> {
                &&& r matches Ok(syn_ack) && syn_ack@ == make_packet(
                    PacketType::SynAck,
                    old(self).local_sequence,
                    be32(old(self).local_sequence),
                )
                &&& final(self).state == ServerState::SynReceived
                &&& final(self).peer_sequence == request@.sequence_no
                &&& final(self).local_sequence == old(self).local_sequence
                &&& final(self).received == old(self).received
            },
            request@.packet_type != PacketType::Syn ==> {
                &&& r == Result::<Packet, TransferError>::Err(TransferError::ProtocolViolation)
                &&& final(self).state == ServerState::Error
                &&& final(self).received == old(self).received
                &&& final(self).local_sequence == old(self).local_sequence
            },
    {
        if matches!(request.packet_type, PacketType::Syn) {
            self.peer_sequence = request.sequence_no;
            self.state = ServerState::SynReceived;
            Ok(Packet::new(PacketType::SynAck, self.local_sequence, u32_to_be_bytes(self.local_sequence)))
        } else {
            self.state = ServerState::Error;
            Err(TransferError::ProtocolViolation)
        }
    }

    /// Handles the handshake-closing ACK. The ACK must echo the
    /// responder's initial sequence number exactly; a wrong echo or any
    /// other kind is a protocol violation.
    pub fn on_handshake_ack(&mut self, response: &Packet) -> (r: Result<(), TransferError>)
        requires
            old(self).state == ServerState::SynReceived,
        ensures
            response@.packet_type == PacketType::Ack && response@.sequence_no == old(
                self,
            ).local_sequence ==> {
                &&& r is Ok
                &&& final(self).state == ServerState::Established
                &&& final(self).local_sequence == old(self).local_sequence
                &&& final(self).peer_sequence == old(self).peer_sequence
                &&& final(self).received == old(self).received
            },
            !(response@.packet_type == PacketType::Ack && response@.sequence_no == old(
                self,
            ).local_sequence) ==> {
                &&& r == Result::<(), TransferError>::Err(TransferError::ProtocolViolation)
                &&& final(self).state == ServerState::Error
                &&& final(self).received == old(self).received
                &&& final(self).local_sequence == old(self).local_sequence
            },
    {
        if matches!(response.packet_type, PacketType::Ack) && response.sequence_no
            == self.local_sequence {
            self.state = ServerState::Established;
            Ok(())
        } else {
            self.state = ServerState::Error;
            Err(TransferError::ProtocolViolation)
        }
    }

    /// Handles one in-transfer packet. DATA and RETRANSMISSION run the
    /// integrity check: on success the payload is appended to the
    /// accumulator, the peer sequence advances to the packet's, and an ACK
    /// goes back; on failure nothing is accepted and a NAK goes back. FIN
    /// starts the teardown. Anything else is a protocol violation.
    pub fn on_transfer_packet(&mut self, request: &Packet) -> (r: Result<
        ServerReply,
        TransferError,
    >)
        requires
            old(self).state == ServerState::Established || old(self).state
                == ServerState::Receiving,
        ensures
            (request@.packet_type == PacketType::Data || request@.packet_type
                == PacketType::Retransmission) && crate::codec::packet_verifies(request@) ==> {
                &&& r matches Ok(reply) && reply matches ServerReply::Accepted(ack) && ack@
                    == make_packet(
                    PacketType::Ack,
                    old(self).local_sequence,
                    Seq::<u8>::empty(),
                )
                &&& final(self).state == ServerState::Receiving
                &&& final(self).received@ == old(self).received@ + request@.data
                &&& final(self).peer_sequence == request@.sequence_no
                &&& final(self).local_sequence == old(self).local_sequence
            },
            (request@.packet_type == PacketType::Data || request@.packet_type
                == PacketType::Retransmission) && !crate::codec::packet_verifies(request@) ==> {
                &&& r matches Ok(reply) && reply matches ServerReply::Rejected(nak) && nak@
                    == make_packet(
                    PacketType::Nak,
                    old(self).local_sequence,
                    Seq::<u8>::empty(),
                )
                &&& final(self).state == ServerState::Receiving
                &&& final(self).received == old(self).received
                &&& final(self).peer_sequence == old(self).peer_sequence
                &&& final(self).local_sequence == old(self).local_sequence
            },
            request@.packet_type == PacketType::Fin ==> {
                &&& (r matches Ok(reply) && reply matches ServerReply::FinReceived)
                &&& final(self).state == ServerState::CloseWait
                &&& final(self).received == old(self).received
                &&& final(self).peer_sequence == old(self).peer_sequence
                &&& final(self).local_sequence == old(self).local_sequence
            },
            !(request@.packet_type == PacketType::Data || request@.packet_type
                == PacketType::Retransmission || request@.packet_type == PacketType::Fin) ==> {
                &&& r == Result::<ServerReply, TransferError>::Err(
                    TransferError::ProtocolViolation,
                )
                &&& final(self).state == ServerState::Error
                &&& final(self).received == old(self).received
                &&& final(self).local_sequence == old(self).local_sequence
            },
    {
        match request.packet_type {
            PacketType::Data | PacketType::Retransmission => {
                if verify(request) {
                    append_bytes(&mut self.received, &request.data);
                    self.peer_sequence = request.sequence_no;
                    self.state = ServerState::Receiving;
                    Ok(ServerReply::Accepted(Packet::new(PacketType::Ack, self.local_sequence, Vec::new())))
                } else {
                    self.state = ServerState::Receiving;
                    Ok(ServerReply::Rejected(Packet::new(PacketType::Nak, self.local_sequence, Vec::new())))
                }
            },
            PacketType::Fin => {
                self.state = ServerState::CloseWait;
                Ok(ServerReply::FinReceived)
            },
            _ => {
                self.state = ServerState::Error;
                Err(TransferError::ProtocolViolation)
            },
        }
    }

    /// Answers a FIN: the ACK of the peer's FIN followed by the
    /// responder's own FIN. The responder then awaits the final ACK.
    pub fn terminate(&mut self) -> (r: (Packet, Packet))
        requires
            old(self).state == ServerState::CloseWait,
        ensures
            *final(self) == *old(self),
            r.0@ == make_packet(
                PacketType::Ack,
                next_seq(old(self).local_sequence),
                Seq::<u8>::empty(),
            ),
            r.1@ == make_packet(
                PacketType::Fin,
                next_seq(old(self).local_sequence),
                Seq::<u8>::empty(),
            ),
    {
        let seq = next_seq_exec(self.local_sequence);
        (Packet::new(PacketType::Ack, seq, Vec::new()), Packet::new(PacketType::Fin, seq, Vec::new()))
    }

    /// Handles the initiator's final ACK, reaching CLOSED; anything else
    /// is a protocol violation.
    pub fn on_final_ack(&mut self, response: &Packet) -> (r: Result<(), TransferError>)
        requires
            old(self).state == ServerState::CloseWait,
        ensures
            response@.packet_type == PacketType::Ack ==> {
                &&& r is Ok
                &&& final(self).state == ServerState::Closed
                &&& final(self).received == old(self).received
                &&& final(self).local_sequence == old(self).local_sequence
                &&& final(self).peer_sequence == old(self).peer_sequence
            },
            response@.packet_type != PacketType::Ack ==> {
                &&& r == Result::<(), TransferError>::Err(TransferError::ProtocolViolation)
                &&& final(self).state == ServerState::Error
                &&& final(self).received == old(self).received
                &&& final(self).local_sequence == old(self).local_sequence
            },
    {
        if matches!(response.packet_type, PacketType::Ack) {
            self.state = ServerState::Closed;
            Ok(())
        } else {
            self.state = ServerState::Error;
            Err(TransferError::ProtocolViolation)
        }
    }
}

/// The result and incoming-queue consumption of a protocol step, as a
/// function of the queued peer responses.
pub struct StepSpec {
    pub result: Result<(), TransferError>,
    pub consumed: nat,
}

/// What one bounded send-chunk step comes to on a given queue of peer
/// responses and a retry budget: each queued NAK costs one attempt and one
/// retransmission; an ACK succeeds; an empty queue is a timeout on every
/// remaining attempt; any other kind is a protocol violation.
pub open spec fn send_chunk_spec(q: Seq<PacketView>, budget: nat) -> StepSpec
    decreases q.len(),
{
    if budget == 0 || q.len() == 0 {
        StepSpec { result: Err(TransferError::RetriesExhausted), consumed: 0 }
    } else if q[0].packet_type == PacketType::Ack {
        StepSpec { result: Ok(()), consumed: 1 }
    } else if q[0].packet_type == PacketType::Nak {
        if budget == 1 {
            StepSpec { result: Err(TransferError::RetriesExhausted), consumed: 1 }
        } else {
            let rest = send_chunk_spec(q.drop_first(), (budget - 1) as nat);
            StepSpec { result: rest.result, consumed: rest.consumed + 1 }
        }
    } else {
        StepSpec { result: Err(TransferError::ProtocolViolation), consumed: 1 }
    }
}

/// The packets one bounded send-chunk step writes: the DATA packet first,
/// a RETRANSMISSION after each NAK, and the current packet once per
/// remaining attempt when the queue runs dry.
pub open spec fn send_chunk_script(
    q: Seq<PacketView>,
    budget: nat,
    first: PacketView,
    retry: PacketView,
) -> Seq<PacketView>
    decreases q.len(),
{
    if budget == 0 {
        Seq::empty()
    } else if q.len() == 0 {
        Seq::new(budget, |i: int| first)
    } else if q[0].packet_type == PacketType::Nak && budget > 1 {
        seq![first] + send_chunk_script(q.drop_first(), (budget - 1) as nat, retry, retry)
    } else {
        seq![first]
    }
}

impl Client {
    /// Splits a payload into chunks of at most `packet_size` bytes; the
    /// last chunk may be shorter.
    pub fn packetize(&self, data: Vec<u8>, packet_size: usize) -> (r: Vec<Vec<u8>>)
        requires
            packet_size > 0,
        ensures
            r.deep_view() == crate::segment::chunks_of(data@, packet_size as nat),
    {
        let ghost size = packet_size as nat;
        let ghost len = data@.len();
        let mut packets: Vec<Vec<u8>> = Vec::new();
        let mut i: usize = 0;
        proof {
            assert(packets@.len() * size == 0) by (nonlinear_arith)
                requires
                    packets@.len() == 0,
            ;
        }
        while i < data.len()
            invariant
                packet_size > 0,
                size == packet_size as nat,
                len == data@.len(),
                i <= data@.len(),
                i as int == if packets@.len() * size <= len {
                    (packets@.len() * size) as int
                } else {
                    len as int
                },
                packets@.len() > 0 ==> (packets@.len() - 1) * size < len,
                i < data.len() ==> i as int == packets@.len() * size,
                forall|j: int|
                    0 <= j < packets@.len() ==> (#[trigger] packets@[j])@ == crate::segment::chunk_at(
                        data@,
                        size,
                        j as nat,
                    ),
            decreases data@.len() - i,
        {
            let ghost k = packets@.len();
            let end = if packet_size > data.len() - i {
                data.len()
            } else {
                i + packet_size
            };
            proof {
                assert((k + 1) * size == k * size + size) by (nonlinear_arith);
                assert(end as int == crate::segment::chunk_end(len, size, k as nat));
            }
            let mut chunk: Vec<u8> = Vec::new();
            let mut j: usize = i;
            while j < end
                invariant
                    i <= j <= end,
                    end <= data@.len(),
                    chunk@ == data@.subrange(i as int, j as int),
                decreases end - j,
            {
                chunk.push(data[j]);
                proof {
                    assert(data@.subrange(i as int, j + 1) =~= data@.subrange(
                        i as int,
                        j as int,
                    ).push(data@[j as int]));
                }
                j = j + 1;
            }
            packets.push(chunk);
            proof {
                assert(packets@[k as int]@ == crate::segment::chunk_at(data@, size, k as nat));
                assert(forall|j2: int|
                    0 <= j2 < k ==> (#[trigger] packets@[j2])@ == crate::segment::chunk_at(
                        data@,
                        size,
                        j2 as nat,
                    ));
            }
            i = end;
        }
        proof {
            let k = packets@.len();
            if len == 0 {
                assert(k == 0);
                crate::segment::lemma_chunks_empty(data@, size);
            } else {
                assert(k * size >= len);
                assert((k - 1) * size < len);
                assert(k == crate::segment::num_chunks(len, size)) by (nonlinear_arith)
                    requires
                        size > 0,
                        len > 0,
                        k * size >= len,
                        (k - 1) * size < len,
                        crate::segment::num_chunks(len, size) == ((len + size - 1) / size as int),
                ;
            }
            assert(packets.deep_view().len() == k);
            assert(forall|j: int|
                0 <= j < k ==> packets.deep_view()[j] == (#[trigger] packets@[j])@);
            assert(packets.deep_view() =~= crate::segment::chunks_of(data@, size));
        }
        packets
    }

    /// Runs the whole three-way handshake over a stream: sends SYN with
    /// bounded retry, classifies the response, and acknowledges the
    /// SYN_ACK. The outcome is an exact function of the queued responses.
    pub fn handshake(
        &mut self,
        incoming: &mut PacketStream,
        outgoing: &mut PacketStream,
        timeout_ms: u64,
        max_attempts: u32,
    ) -> (r: Result<(), TransferError>)
        requires
            old(self).state == ClientState::Closed,
            max_attempts >= 1,
        ensures
            ({
                let q = old(incoming)@;
                let syn = make_packet(
                    PacketType::Syn,
                    old(self).local_sequence,
                    Seq::<u8>::empty(),
                );
                if q.len() == 0 {
                    &&& r == Result::<(), TransferError>::Err(TransferError::RetriesExhausted)
                    &&& final(self).state == ClientState::Error
                    &&& final(incoming)@ == q
                    &&& final(outgoing)@ == old(outgoing)@ + Seq::new(
                        max_attempts as nat,
                        |i: int| syn,
                    )
                } else if q[0].packet_type == PacketType::SynAck && q[0].data.len() >= 4 {
                    let isn = be32_val(q[0].data[0], q[0].data[1], q[0].data[2], q[0].data[3]);
                    &&& r is Ok
                    &&& final(self).state == ClientState::Established
                    &&& final(self).peer_sequence == isn
                    &&& final(self).local_sequence == isn
                    &&& final(incoming)@ == q.drop_first()
                    &&& final(outgoing)@ == old(outgoing)@ + seq![
                        syn,
                        make_packet(PacketType::Ack, isn, Seq::<u8>::empty()),
                    ]
                } else {
                    &&& r == Result::<(), TransferError>::Err(
                        if q[0].packet_type == PacketType::SynAck {
                            TransferError::Frame(FrameError::Truncated)
                        } else {
                            TransferError::ProtocolViolation
                        },
                    )
                    &&& final(self).state == ClientState::Error
                    &&& final(incoming)@ == q.drop_first()
                    &&& final(outgoing)@ == old(outgoing)@ + seq![syn]
                }
            }),
    {
        let syn = self.begin_connect();
        let out = crate::retry::with_retry(incoming, outgoing, Some(&syn), timeout_ms, max_attempts);
        match out.response {
            None => {
                self.state = ClientState::Error;
                proof {
                    assert(crate::retry::request_script(Some(&syn), max_attempts as nat)
                        =~= Seq::new(
                        max_attempts as nat,
                        |i: int| make_packet(
                            PacketType::Syn,
                            old(self).local_sequence,
                            Seq::<u8>::empty(),
                        ),
                    ));
                }
                Err(TransferError::RetriesExhausted)
            },
            Some(response) => {
                proof {
                    assert(crate::retry::request_script(Some(&syn), 1) =~= seq![syn@]);
                }
                match self.on_connect_response(&response) {
                    Ok(ack) => {
                        let ghost ack_view = ack@;
                        outgoing.write(ack);
                        proof {
                            assert(old(outgoing)@ + seq![syn@] + seq![ack_view] =~= old(outgoing)@
                                + seq![syn@, ack_view]);
                        }
                        Ok(())
                    },
                    Err(e) => Err(e),
                }
            },
        }
    }

    /// Sends one payload chunk and drives it to acceptance: DATA first,
    /// a RETRANSMISSION after each NAK, every attempt (timeout or NAK)
    /// counted against the same budget. The outcome, the consumed
    /// responses and the packets written are exact functions of the queued
    /// responses.
    #[verifier::loop_isolation(false)]
    pub fn send_data(
        &mut self,
        incoming: &mut PacketStream,
        outgoing: &mut PacketStream,
        chunk: &Vec<u8>,
        timeout_ms: u64,
        max_attempts: u32,
    ) -> (r: Result<(), TransferError>)
        requires
            old(self).state == ClientState::Established || old(self).state
                == ClientState::Transferring,
            chunk@.len() + 9 <= u32::MAX,
            max_attempts >= 1,
        ensures
            ({
                let s = send_chunk_spec(old(incoming)@, max_attempts as nat);
                let first = make_packet(
                    PacketType::Data,
                    next_seq(old(self).local_sequence),
                    chunk@,
                );
                let retry = make_packet(
                    PacketType::Retransmission,
                    next_seq(old(self).local_sequence),
                    chunk@,
                );
                &&& r == s.result
                &&& final(incoming)@ == old(incoming)@.skip(s.consumed as int)
                &&& final(outgoing)@ == old(outgoing)@ + send_chunk_script(
                    old(incoming)@,
                    max_attempts as nat,
                    first,
                    retry,
                )
                &&& r is Ok ==> final(self).state == ClientState::Transferring
                    && final(self).local_sequence == next_seq(old(self).local_sequence)
                    && final(self).peer_sequence == old(self).peer_sequence
                &&& r is Err ==> final(self).state == ClientState::Error
            }),
    {
        let ghost q0 = old(incoming)@;
        let ghost out0 = old(outgoing)@;
        let ghost m0 = max_attempts as nat;
        let ghost first_view = make_packet(PacketType::Data, next_seq(old(self).local_sequence), chunk@);
        let ghost retry_view = make_packet(
            PacketType::Retransmission,
            next_seq(old(self).local_sequence),
            chunk@,
        );
        let mut budget = max_attempts;
        let mut current = self.begin_send(chunk);
        let ghost mut consumed: nat = 0;
        let ghost mut sent: Seq<PacketView> = Seq::empty();
        proof {
            assert(q0.skip(0) =~= q0);
            assert(Seq::<PacketView>::empty() + send_chunk_script(q0, m0, first_view, retry_view)
                =~= send_chunk_script(q0, m0, first_view, retry_view));
            assert(out0 + Seq::<PacketView>::empty() =~= out0);
        }
        loop
            invariant
                1 <= budget <= max_attempts,
                self.state == ClientState::Transferring,
                self.local_sequence == old(self).local_sequence,
                self.peer_sequence == old(self).peer_sequence,
                chunk@.len() + 9 <= u32::MAX,
                current@ == first_view || current@ == retry_view,
                incoming@ == q0.skip(consumed as int),
                consumed <= q0.len(),
                send_chunk_spec(q0, m0).result == send_chunk_spec(
                    incoming@,
                    budget as nat,
                ).result,
                send_chunk_spec(q0, m0).consumed == consumed + send_chunk_spec(
                    incoming@,
                    budget as nat,
                ).consumed,
                send_chunk_script(q0, m0, first_view, retry_view) == sent + send_chunk_script(
                    incoming@,
                    budget as nat,
                    current@,
                    retry_view,
                ),
                outgoing@ == out0 + sent,
            decreases incoming@.len(),
        {
            let ghost cur = current@;
            let out = crate::retry::with_retry(incoming, outgoing, Some(&current), timeout_ms, budget);
            match out.response {
                None => {
                    self.state = ClientState::Error;
                    proof {
                        assert(crate::retry::request_script(Some(&current), budget as nat)
                            =~= Seq::new(budget as nat, |i: int| cur));
                        sent = sent + Seq::new(budget as nat, |i: int| cur);
                        assert(out0 + sent =~= (out0 + sent.take(
                            sent.len() - budget as int,
                        )) + Seq::new(budget as nat, |i: int| cur)) by {
                            assert(sent.take(sent.len() - budget as int) + Seq::new(
                                budget as nat,
                                |i: int| cur,
                            ) =~= sent);
                        }
                        assert(send_chunk_script(incoming@, budget as nat, cur, retry_view)
                            == Seq::new(budget as nat, |i: int| cur));
                        assert(out0 + send_chunk_script(q0, m0, first_view, retry_view)
                            =~= outgoing@);
                    }
                    return Err(TransferError::RetriesExhausted);
                },
                Some(response) => {
                    proof {
                        assert(crate::retry::request_script(Some(&current), 1) =~= seq![cur]);
                        sent = sent + seq![cur];
                    }
                    match self.on_send_response(&response) {
                        Ok(SendStatus::Accepted) => {
                            proof {
                                assert(send_chunk_script(
                                    q0.skip(consumed as int),
                                    budget as nat,
                                    cur,
                                    retry_view,
                                ) == seq![cur]);
                                assert(q0.skip(consumed as int).drop_first() =~= q0.skip(
                                    consumed as int + 1,
                                ));
                                assert(out0 + send_chunk_script(q0, m0, first_view, retry_view)
                                    =~= outgoing@);
                            }
                            return Ok(());
                        },
                        Ok(SendStatus::NakRetry) => {
                            proof {
                                assert(q0.skip(consumed as int).drop_first() =~= q0.skip(
                                    consumed as int + 1,
                                ));
                            }
                            if budget == 1 {
                                self.state = ClientState::Error;
                                proof {
                                    assert(send_chunk_script(
                                        q0.skip(consumed as int),
                                        1nat,
                                        cur,
                                        retry_view,
                                    ) == seq![cur]);
                                    assert(out0 + send_chunk_script(
                                        q0,
                                        m0,
                                        first_view,
                                        retry_view,
                                    ) =~= outgoing@);
                                }
                                return Err(TransferError::RetriesExhausted);
                            }
                            budget = budget - 1;
                            current = self.begin_retransmit(chunk);
                            proof {
                                assert(send_chunk_script(
                                    q0.skip(consumed as int),
                                    (budget + 1) as nat,
                                    cur,
                                    retry_view,
                                ) == seq![cur] + send_chunk_script(
                                    q0.skip(consumed as int).drop_first(),
                                    budget as nat,
                                    retry_view,
                                    retry_view,
                                ));
                                consumed = consumed + 1;
                                assert((sent.drop_last() + seq![cur]) + send_chunk_script(
                                    incoming@,
                                    budget as nat,
                                    retry_view,
                                    retry_view,
                                ) =~= sent.drop_last() + (seq![cur] + send_chunk_script(
                                    incoming@,
                                    budget as nat,
                                    retry_view,
                                    retry_view,
                                )));
                                assert(sent.drop_last() + seq![cur] =~= sent);
                            }
                        },
                        Err(e) => {
                            proof {
                                assert(send_chunk_script(
                                    q0.skip(consumed as int),
                                    budget as nat,
                                    cur,
                                    retry_view,
                                ) == seq![cur]);
                                assert(q0.skip(consumed as int).drop_first() =~= q0.skip(
                                    consumed as int + 1,
                                ));
                                assert(out0 + send_chunk_script(q0, m0, first_view, retry_view)
                                    =~= outgoing@);
                            }
                            return Err(e);
                        },
                    }
                },
            }
        }
    }

    /// Runs the four-step teardown: sends FIN with bounded retry, awaits
    /// the peer's ACK, awaits the peer's own FIN, and answers it with the
    /// final ACK. The outcome is an exact function of the queued
    /// responses.
    pub fn terminate(
        &mut self,
        incoming: &mut PacketStream,
        outgoing: &mut PacketStream,
        timeout_ms: u64,
        max_attempts: u32,
    ) -> (r: Result<(), TransferError>)
        requires
            old(self).state == ClientState::Established || old(self).state
                == ClientState::Transferring,
            max_attempts >= 1,
        ensures
            ({
                let q = old(incoming)@;
                let fin = make_packet(
                    PacketType::Fin,
                    next_seq(old(self).local_sequence),
                    Seq::<u8>::empty(),
                );
                let last_ack = make_packet(
                    PacketType::Ack,
                    next_seq(old(self).local_sequence),
                    Seq::<u8>::empty(),
                );
                if q.len() == 0 {
                    &&& r == Result::<(), TransferError>::Err(TransferError::RetriesExhausted)
                    &&& final(self).state == ClientState::Error
                    &&& final(incoming)@ == q
                    &&& final(outgoing)@ == old(outgoing)@ + Seq::new(
                        max_attempts as nat,
                        |i: int| fin,
                    )
                } else if q[0].packet_type != PacketType::Ack {
                    &&& r == Result::<(), TransferError>::Err(TransferError::ProtocolViolation)
                    &&& final(self).state == ClientState::Error
                    &&& final(incoming)@ == q.drop_first()
                    &&& final(outgoing)@ == old(outgoing)@ + seq![fin]
                } else if q.len() == 1 {
                    &&& r == Result::<(), TransferError>::Err(TransferError::RetriesExhausted)
                    &&& final(self).state == ClientState::Error
                    &&& final(incoming)@ == q.drop_first()
                    &&& final(outgoing)@ == old(outgoing)@ + seq![fin]
                } else if q[1].packet_type == PacketType::Fin {
                    &&& r == Result::<(), TransferError>::Ok(())
                    &&& final(self).state == ClientState::Closed
                    &&& final(self).local_sequence == old(self).local_sequence
                    &&& final(self).peer_sequence == old(self).peer_sequence
                    &&& final(incoming)@ == q.skip(2)
                    &&& final(outgoing)@ == old(outgoing)@ + seq![fin, last_ack]
                } else {
                    &&& r == Result::<(), TransferError>::Err(TransferError::ProtocolViolation)
                    &&& final(self).state == ClientState::Error
                    &&& final(incoming)@ == q.skip(2)
                    &&& final(outgoing)@ == old(outgoing)@ + seq![fin]
                }
            }),
    {
        let ghost q0 = old(incoming)@;
        let fin = self.begin_close();
        let out = crate::retry::with_retry(incoming, outgoing, Some(&fin), timeout_ms, max_attempts);
        match out.response {
            None => {
                self.state = ClientState::Error;
                proof {
                    assert(crate::retry::request_script(Some(&fin), max_attempts as nat)
                        =~= Seq::new(max_attempts as nat, |i: int| fin@));
                }
                return Err(TransferError::RetriesExhausted);
            },
            Some(response) => {
                proof {
                    assert(crate::retry::request_script(Some(&fin), 1) =~= seq![fin@]);
                }
                match self.on_close_ack(&response) {
                    Ok(()) => {},
                    Err(e) => {
                        return Err(e);
                    },
                }
                let out2 = crate::retry::with_retry(incoming, outgoing, None, timeout_ms, max_attempts);
                proof {
                    assert(crate::retry::request_script(None, max_attempts as nat) =~= Seq::<
                        PacketView,
                    >::empty());
                    assert(crate::retry::request_script(None, 1) =~= Seq::<PacketView>::empty());
                    assert(outgoing@ =~= old(outgoing)@ + seq![fin@]);
                }
                match out2.response {
                    None => {
                        self.state = ClientState::Error;
                        return Err(TransferError::RetriesExhausted);
                    },
                    Some(response2) => {
                        proof {
                            assert(q0.drop_first().drop_first() =~= q0.skip(2));
                        }
                        match self.on_close_fin(&response2) {
                            Ok(ack) => {
                                let ghost ack_view = ack@;
                                outgoing.write(ack);
                                proof {
                                    assert(old(outgoing)@ + seq![fin@] + seq![ack_view] =~= old(
                                        outgoing,
                                    )@ + seq![fin@, ack_view]);
                                }
                                Ok(())
                            },
                            Err(e) => Err(e),
                        }
                    },
                }
            },
        }
    }
}

/// The initiator's teardown as a function of the queued responses: the
/// peer's ACK of our FIN, then the peer's own FIN.
pub open spec fn close_spec(q: Seq<PacketView>) -> StepSpec {
    if q.len() == 0 {
        StepSpec { result: Err(TransferError::RetriesExhausted), consumed: 0 }
    } else if q[0].packet_type != PacketType::Ack {
        StepSpec { result: Err(TransferError::ProtocolViolation), consumed: 1 }
    } else if q.len() == 1 {
        StepSpec { result: Err(TransferError::RetriesExhausted), consumed: 1 }
    } else if q[1].packet_type == PacketType::Fin {
        StepSpec { result: Ok(()), consumed: 2 }
    } else {
        StepSpec { result: Err(TransferError::ProtocolViolation), consumed: 2 }
    }
}

/// The initiator's data phase as a function of the queued responses: one
/// bounded send-chunk step per chunk, then the teardown.
pub open spec fn transmit_chunks_spec(q: Seq<PacketView>, chunks: Seq<Seq<u8>>, budget: nat) -> StepSpec
    decreases chunks.len(),
{
    if chunks.len() == 0 {
        close_spec(q)
    } else {
        let s = send_chunk_spec(q, budget);
        if s.result is Ok {
            let rest = transmit_chunks_spec(q.skip(s.consumed as int), chunks.drop_first(), budget);
            StepSpec { result: rest.result, consumed: s.consumed + rest.consumed }
        } else {
            s
        }
    }
}

/// A whole initiator session as a function of the queued responses:
/// handshake, one send step per chunk, teardown.
pub open spec fn transmit_spec(q: Seq<PacketView>, chunks: Seq<Seq<u8>>, budget: nat) -> StepSpec {
    if q.len() == 0 {
        StepSpec { result: Err(TransferError::RetriesExhausted), consumed: 0 }
    } else if q[0].packet_type != PacketType::SynAck {
        StepSpec { result: Err(TransferError::ProtocolViolation), consumed: 1 }
    } else if q[0].data.len() < 4 {
        StepSpec { result: Err(TransferError::Frame(FrameError::Truncated)), consumed: 1 }
    } else {
        let rest = transmit_chunks_spec(q.drop_first(), chunks, budget);
        StepSpec { result: rest.result, consumed: rest.consumed + 1 }
    }
}

proof fn lemma_send_chunk_consumed(q: Seq<PacketView>, budget: nat)
    ensures
        send_chunk_spec(q, budget).consumed <= q.len(),
    decreases q.len(),
{
    if budget > 0 && q.len() > 0 && q[0].packet_type == PacketType::Nak && budget > 1 {
        lemma_send_chunk_consumed(q.drop_first(), (budget - 1) as nat);
    }
}

impl Client {
    /// Transmits a whole payload: handshake, one bounded send step per
    /// 8-byte chunk, teardown. The outcome is an exact function of the
    /// queued responses; on success the connection ends CLOSED, on any
    /// failure it ends in ERROR with the error surfaced, never silently
    /// dropped.
    #[verifier::loop_isolation(false)]
    #[verifier::rlimit(80)]
    pub fn transmit(
        &mut self,
        incoming: &mut PacketStream,
        outgoing: &mut PacketStream,
        data: Vec<u8>,
    ) -> (r: Result<(), TransferError>)
        requires
            old(self).state == ClientState::Closed,
        ensures
            ({
                let s = transmit_spec(
                    old(incoming)@,
                    crate::segment::chunks_of(data@, 8),
                    3,
                );
                &&& r == s.result
                &&& final(incoming)@ == old(incoming)@.skip(s.consumed as int)
                &&& r is Ok ==> final(self).state == ClientState::Closed
                &&& r is Err ==> final(self).state == ClientState::Error
            }),
    {
        let ghost q0 = old(incoming)@;
        let ghost chunk_views = crate::segment::chunks_of(data@, 8);
        let packets = self.packetize(data, 8);
        match self.handshake(incoming, outgoing, 1000, 3) {
            Err(e) => {
                proof {
                    assert(q0.skip(0) =~= q0);
                    if q0.len() >= 1 {
                        assert(q0.drop_first() =~= q0.skip(1));
                    }
                }
                return Err(e);
            },
            Ok(()) => {},
        }
        let ghost q1 = q0.skip(1);
        let ghost phase = transmit_chunks_spec(q1, chunk_views, 3);
        let ghost mut consumed: nat = 0;
        let mut k: usize = 0;
        proof {
            assert(q1.skip(0) =~= q1);
            assert(chunk_views.skip(0) =~= chunk_views);
            assert(q0.drop_first() =~= q0.skip(1));
        }
        while k < packets.len()
            invariant
                k <= packets@.len(),
                packets.deep_view() == chunk_views,
                packets@.len() == chunk_views.len(),
                self.state == if k == 0 {
                    ClientState::Established
                } else {
                    ClientState::Transferring
                },
                incoming@ == q1.skip(consumed as int),
                consumed <= q1.len(),
                phase.result == transmit_chunks_spec(
                    incoming@,
                    chunk_views.skip(k as int),
                    3,
                ).result,
                phase.consumed == consumed + transmit_chunks_spec(
                    incoming@,
                    chunk_views.skip(k as int),
                    3,
                ).consumed,
            decreases packets@.len() - k,
        {
            let ghost q_now = incoming@;
            proof {
                crate::segment::lemma_chunk_sizes(data@, 8, k as nat);
                assert(packets@[k as int]@ == chunk_views[k as int]);
                lemma_send_chunk_consumed(q_now, 3);
            }
            match self.send_data(incoming, outgoing, &packets[k], 1000, 3) {
                Err(e) => {
                    proof {
                        let s = send_chunk_spec(q_now, 3);
                        assert(chunk_views.skip(k as int).len() > 0);
                        assert(q_now.skip(s.consumed as int) =~= q1.skip(
                            consumed as int + s.consumed,
                        ));
                        assert(q1.skip(consumed as int + s.consumed) =~= q0.skip(
                            1 + consumed as int + s.consumed,
                        ));
                    }
                    return Err(e);
                },
                Ok(()) => {
                    proof {
                        let s = send_chunk_spec(q_now, 3);
                        assert(chunk_views.skip(k as int).len() > 0);
                        assert(chunk_views.skip(k as int).drop_first() =~= chunk_views.skip(
                            k as int + 1,
                        ));
                        assert(q_now.skip(s.consumed as int) =~= q1.skip(
                            consumed as int + s.consumed,
                        ));
                        consumed = consumed + s.consumed;
                    }
                    k = k + 1;
                },
            }
        }
        proof {
            assert(chunk_views.skip(packets@.len() as int).len() == 0);
        }
        let ghost q_close = incoming@;
        let result = self.terminate(incoming, outgoing, 1000, 3);
        proof {
            if q_close.len() >= 1 {
                assert(q_close.drop_first() =~= q1.skip(consumed as int + 1));
                assert(q1.skip(consumed as int + 1) =~= q0.skip(1 + consumed as int + 1));
            }
            if q_close.len() >= 2 {
                assert(q_close.skip(2) =~= q1.skip(consumed as int + 2));
                assert(q1.skip(consumed as int + 2) =~= q0.skip(1 + consumed as int + 2));
            }
            assert(q_close =~= q0.skip(1 + consumed as int));
            assert(transmit_spec(q0, chunk_views, 3).result == close_spec(q_close).result);
        }
        result
    }
}

/// What the responder's bounded receive step reported to its caller.
#[derive(Copy, Clone, PartialEq, Eq, Structural, Debug)]
pub enum ReceiveStatus {
    /// A DATA or RETRANSMISSION packet passed the integrity check and was
    /// acknowledged.
    ChunkAccepted,
    /// The integrity check failed; a NAK went back and nothing was
    /// accepted.
    ChunkRejected,
    /// The peer asked to close.
    FinReceived,
}

/// What the responder's receive loop and teardown come to on a given queue
/// of incoming packets: the final result, the payload bytes accepted in
/// order, and how many packets were consumed.
pub struct RecvSpec {
    pub result: Result<(), TransferError>,
    pub received: Seq<u8>,
    pub consumed: nat,
}

/// The responder's receive loop as a function of the queued packets:
/// verified DATA and RETRANSMISSION payloads are appended in order,
/// corrupted ones are skipped (a NAK goes back), FIN starts the teardown
/// (an ACK of the FIN, the responder's own FIN, then the initiator's final
/// ACK is awaited), an empty queue is a timeout on every remaining
/// attempt, and any other kind is a protocol violation.
pub open spec fn recv_loop_spec(q: Seq<PacketView>) -> RecvSpec
    decreases q.len(),
{
    if q.len() == 0 {
        RecvSpec { result: Err(TransferError::RetriesExhausted), received: Seq::empty(), consumed: 0 }
    } else if q[0].packet_type == PacketType::Data || q[0].packet_type
        == PacketType::Retransmission {
        let rest = recv_loop_spec(q.drop_first());
        if crate::codec::packet_verifies(q[0]) {
            RecvSpec {
                result: rest.result,
                received: q[0].data + rest.received,
                consumed: rest.consumed + 1,
            }
        } else {
            RecvSpec { result: rest.result, received: rest.received, consumed: rest.consumed + 1 }
        }
    } else if q[0].packet_type == PacketType::Fin {
        if q.len() == 1 {
            RecvSpec {
                result: Err(TransferError::RetriesExhausted),
                received: Seq::empty(),
                consumed: 1,
            }
        } else if q[1].packet_type == PacketType::Ack {
            RecvSpec { result: Ok(()), received: Seq::empty(), consumed: 2 }
        } else {
            RecvSpec {
                result: Err(TransferError::ProtocolViolation),
                received: Seq::empty(),
                consumed: 2,
            }
        }
    } else {
        RecvSpec {
            result: Err(TransferError::ProtocolViolation),
            received: Seq::empty(),
            consumed: 1,
        }
    }
}

/// A whole responder session as a function of the queued packets: the
/// two-packet handshake (SYN, then the ACK echoing the responder's initial
/// sequence number exactly), then the receive loop.
pub open spec fn recv_session_spec(q: Seq<PacketView>, isn: u32) -> RecvSpec {
    if q.len() == 0 {
        RecvSpec { result: Err(TransferError::RetriesExhausted), received: Seq::empty(), consumed: 0 }
    } else if q[0].packet_type != PacketType::Syn {
        RecvSpec {
            result: Err(TransferError::ProtocolViolation),
            received: Seq::empty(),
            consumed: 1,
        }
    } else if q.len() == 1 {
        RecvSpec { result: Err(TransferError::RetriesExhausted), received: Seq::empty(), consumed: 1 }
    } else if !(q[1].packet_type == PacketType::Ack && q[1].sequence_no == isn) {
        RecvSpec {
            result: Err(TransferError::ProtocolViolation),
            received: Seq::empty(),
            consumed: 2,
        }
    } else {
        let rest = recv_loop_spec(q.skip(2));
        RecvSpec { result: rest.result, received: rest.received, consumed: rest.consumed + 2 }
    }
}

/// The packets the responder's receive loop and teardown write, on a
/// given queue of incoming packets: an ACK for each verified chunk, a NAK
/// for each corrupted one, and on FIN the ACK of the FIN followed by the
/// responder's own FIN (re-sent once per remaining attempt when the final
/// ACK never arrives).
pub open spec fn recv_loop_responses(q: Seq<PacketView>, isn: u32, max: nat) -> Seq<PacketView>
    decreases q.len(),
{
    if q.len() == 0 {
        Seq::empty()
    } else if q[0].packet_type == PacketType::Data || q[0].packet_type
        == PacketType::Retransmission {
        let rest = recv_loop_responses(q.drop_first(), isn, max);
        if crate::codec::packet_verifies(q[0]) {
            seq![make_packet(PacketType::Ack, isn, Seq::<u8>::empty())] + rest
        } else {
            seq![make_packet(PacketType::Nak, isn, Seq::<u8>::empty())] + rest
        }
    } else if q[0].packet_type == PacketType::Fin {
        let close_ack = make_packet(PacketType::Ack, next_seq(isn), Seq::<u8>::empty());
        let close_fin = make_packet(PacketType::Fin, next_seq(isn), Seq::<u8>::empty());
        if q.len() == 1 {
            seq![close_ack] + Seq::new(max, |i: int| close_fin)
        } else {
            seq![close_ack, close_fin]
        }
    } else {
        Seq::empty()
    }
}

/// The packets a whole responder session writes: the SYN_ACK (re-sent
/// once per attempt while the echoing ACK never arrives), then the
/// receive-loop responses.
pub open spec fn recv_session_responses(q: Seq<PacketView>, isn: u32, max: nat) -> Seq<
    PacketView,
> {
    if q.len() == 0 || q[0].packet_type != PacketType::Syn {
        Seq::empty()
    } else {
        let syn_ack = make_packet(PacketType::SynAck, isn, be32(isn));
        if q.len() == 1 {
            Seq::new(max, |i: int| syn_ack)
        } else if !(q[1].packet_type == PacketType::Ack && q[1].sequence_no == isn) {
            seq![syn_ack]
        } else {
            seq![syn_ack] + recv_loop_responses(q.skip(2), isn, max)
        }
    }
}

impl Server {
    /// Runs the responder's half of the handshake over a stream: awaits
    /// SYN within the listen timeout, answers SYN_ACK with bounded retry,
    /// and awaits the echoing ACK. The outcome is an exact function of the
    /// queued packets.
    pub fn handshake(
        &mut self,
        incoming: &mut PacketStream,
        outgoing: &mut PacketStream,
        timeout_ms: u64,
        max_attempts: u32,
    ) -> (r: Result<(), TransferError>)
        requires
            old(self).state == ServerState::Listen,
            max_attempts >= 1,
        ensures
            ({
                let q = old(incoming)@;
                let syn_ack = make_packet(
                    PacketType::SynAck,
                    old(self).local_sequence,
                    be32(old(self).local_sequence),
                );
                if q.len() == 0 {
                    &&& r == Result::<(), TransferError>::Err(TransferError::RetriesExhausted)
                    &&& final(self).state == ServerState::Error
                    &&& final(self).received == old(self).received
                    &&& final(incoming)@ == q
                    &&& final(outgoing)@ == old(outgoing)@
                } else if q[0].packet_type != PacketType::Syn {
                    &&& r == Result::<(), TransferError>::Err(TransferError::ProtocolViolation)
                    &&& final(self).state == ServerState::Error
                    &&& final(self).received == old(self).received
                    &&& final(incoming)@ == q.drop_first()
                    &&& final(outgoing)@ == old(outgoing)@
                } else if q.len() == 1 {
                    &&& r == Result::<(), TransferError>::Err(TransferError::RetriesExhausted)
                    &&& final(self).state == ServerState::Error
                    &&& final(self).received == old(self).received
                    &&& final(incoming)@ == q.drop_first()
                    &&& final(outgoing)@ == old(outgoing)@ + Seq::new(
                        max_attempts as nat,
                        |i: int| syn_ack,
                    )
                } else if q[1].packet_type == PacketType::Ack && q[1].sequence_no == old(
                    self,
                ).local_sequence {
                    &&& r is Ok
                    &&& final(self).state == ServerState::Established
                    &&& final(self).peer_sequence == q[0].sequence_no
                    &&& final(self).local_sequence == old(self).local_sequence
                    &&& final(self).received == old(self).received
                    &&& final(incoming)@ == q.skip(2)
                    &&& final(outgoing)@ == old(outgoing)@ + seq![syn_ack]
                } else {
                    &&& r == Result::<(), TransferError>::Err(TransferError::ProtocolViolation)
                    &&& final(self).state == ServerState::Error
                    &&& final(self).received == old(self).received
                    &&& final(incoming)@ == q.skip(2)
                    &&& final(outgoing)@ == old(outgoing)@ + seq![syn_ack]
                }
            }),
    {
        let ghost q0 = old(incoming)@;
        let listen = crate::retry::with_retry(incoming, outgoing, None, timeout_ms, max_attempts);
        proof {
            assert(crate::retry::request_script(None, max_attempts as nat) =~= Seq::<
                PacketView,
            >::empty());
            assert(crate::retry::request_script(None, 1) =~= Seq::<PacketView>::empty());
            assert(old(outgoing)@ + Seq::<PacketView>::empty() =~= old(outgoing)@);
        }
        match listen.response {
            None => {
                self.state = ServerState::Error;
                return Err(TransferError::RetriesExhausted);
            },
            Some(request) => {
                match self.on_syn(&request) {
                    Err(e) => {
                        return Err(e);
                    },
                    Ok(syn_ack) => {
                        let out = crate::retry::with_retry(
                            incoming,
                            outgoing,
                            Some(&syn_ack),
                            timeout_ms,
                            max_attempts,
                        );
                        proof {
                            assert(crate::retry::request_script(
                                Some(&syn_ack),
                                max_attempts as nat,
                            ) =~= Seq::new(max_attempts as nat, |i: int| syn_ack@));
                            assert(crate::retry::request_script(Some(&syn_ack), 1) =~= seq![
                                syn_ack@,
                            ]);
                            if q0.len() >= 2 {
                                assert(q0.drop_first().drop_first() =~= q0.skip(2));
                            }
                        }
                        match out.response {
                            None => {
                                self.state = ServerState::Error;
                                Err(TransferError::RetriesExhausted)
                            },
                            Some(response) => self.on_handshake_ack(&response),
                        }
                    },
                }
            },
        }
    }

    /// Awaits and handles one in-transfer packet over a stream, writing
    /// the ACK or NAK reply. The outcome is an exact function of the
    /// queued packets.
    pub fn receive_data(
        &mut self,
        incoming: &mut PacketStream,
        outgoing: &mut PacketStream,
        timeout_ms: u64,
        max_attempts: u32,
    ) -> (r: Result<ReceiveStatus, TransferError>)
        requires
            old(self).state == ServerState::Established || old(self).state
                == ServerState::Receiving,
            max_attempts >= 1,
        ensures
            ({
                let q = old(incoming)@;
                if q.len() == 0 {
                    &&& r == Result::<ReceiveStatus, TransferError>::Err(
                        TransferError::RetriesExhausted,
                    )
                    &&& final(self).state == ServerState::Error
                    &&& final(self).received == old(self).received
                    &&& final(incoming)@ == q
                    &&& final(outgoing)@ == old(outgoing)@
                } else if (q[0].packet_type == PacketType::Data || q[0].packet_type
                    == PacketType::Retransmission) && crate::codec::packet_verifies(q[0]) {
                    &&& r == Result::<ReceiveStatus, TransferError>::Ok(
                        ReceiveStatus::ChunkAccepted,
                    )
                    &&& final(self).state == ServerState::Receiving
                    &&& final(self).received@ == old(self).received@ + q[0].data
                    &&& final(self).peer_sequence == q[0].sequence_no
                    &&& final(self).local_sequence == old(self).local_sequence
                    &&& final(incoming)@ == q.drop_first()
                    &&& final(outgoing)@ == old(outgoing)@ + seq![
                        make_packet(
                            PacketType::Ack,
                            old(self).local_sequence,
                            Seq::<u8>::empty(),
                        ),
                    ]
                } else if (q[0].packet_type == PacketType::Data || q[0].packet_type
                    == PacketType::Retransmission) && !crate::codec::packet_verifies(q[0]) {
                    &&& r == Result::<ReceiveStatus, TransferError>::Ok(
                        ReceiveStatus::ChunkRejected,
                    )
                    &&& final(self).state == ServerState::Receiving
                    &&& final(self).received == old(self).received
                    &&& final(self).local_sequence == old(self).local_sequence
                    &&& final(self).peer_sequence == old(self).peer_sequence
                    &&& final(incoming)@ == q.drop_first()
                    &&& final(outgoing)@ == old(outgoing)@ + seq![
                        make_packet(
                            PacketType::Nak,
                            old(self).local_sequence,
                            Seq::<u8>::empty(),
                        ),
                    ]
                } else if q[0].packet_type == PacketType::Fin {
                    &&& r == Result::<ReceiveStatus, TransferError>::Ok(
                        ReceiveStatus::FinReceived,
                    )
                    &&& final(self).state == ServerState::CloseWait
                    &&& final(self).received == old(self).received
                    &&& final(self).local_sequence == old(self).local_sequence
                    &&& final(self).peer_sequence == old(self).peer_sequence
                    &&& final(incoming)@ == q.drop_first()
                    &&& final(outgoing)@ == old(outgoing)@
                } else {
                    &&& r == Result::<ReceiveStatus, TransferError>::Err(
                        TransferError::ProtocolViolation,
                    )
                    &&& final(self).state == ServerState::Error
                    &&& final(self).received == old(self).received
                    &&& final(incoming)@ == q.drop_first()
                    &&& final(outgoing)@ == old(outgoing)@
                }
            }),
    {
        let awaited = crate::retry::with_retry(incoming, outgoing, None, timeout_ms, max_attempts);
        proof {
            assert(crate::retry::request_script(None, max_attempts as nat) =~= Seq::<
                PacketView,
            >::empty());
            assert(crate::retry::request_script(None, 1) =~= Seq::<PacketView>::empty());
            assert(old(outgoing)@ + Seq::<PacketView>::empty() =~= old(outgoing)@);
        }
        match awaited.response {
            None => {
                self.state = ServerState::Error;
                Err(TransferError::RetriesExhausted)
            },
            Some(request) => {
                match self.on_transfer_packet(&request) {
                    Err(e) => Err(e),
                    Ok(ServerReply::Accepted(ack)) => {
                        outgoing.write(ack);
                        proof {
                            assert(outgoing@ =~= old(outgoing)@ + seq![
                                make_packet(
                                    PacketType::Ack,
                                    old(self).local_sequence,
                                    Seq::<u8>::empty(),
                                ),
                            ]);
                        }
                        Ok(ReceiveStatus::ChunkAccepted)
                    },
                    Ok(ServerReply::Rejected(nak)) => {
                        outgoing.write(nak);
                        proof {
                            assert(outgoing@ =~= old(outgoing)@ + seq![
                                make_packet(
                                    PacketType::Nak,
                                    old(self).local_sequence,
                                    Seq::<u8>::empty(),
                                ),
                            ]);
                        }
                        Ok(ReceiveStatus::ChunkRejected)
                    },
                    Ok(ServerReply::FinReceived) => Ok(ReceiveStatus::FinReceived),
                }
            },
        }
    }

    /// Runs a whole responder session over a stream: handshake, receive
    /// loop, teardown. Returns the payload bytes accepted in order. The
    /// outcome is an exact function of the queued packets.
    #[verifier::loop_isolation(false)]
    #[verifier::rlimit(80)]
    pub fn recieve(
        &mut self,
        incoming: &mut PacketStream,
        outgoing: &mut PacketStream,
        timeout_ms: u64,
        max_attempts: u32,
    ) -> (r: Result<Vec<u8>, TransferError>)
        requires
            old(self).state == ServerState::Listen,
            max_attempts >= 1,
        ensures
            ({
                let s = recv_session_spec(old(incoming)@, old(self).local_sequence);
                &&& r is Ok <==> s.result is Ok
                &&& r matches Ok(bytes) ==> bytes@ == old(self).received@ + s.received
                &&& r matches Err(e) ==> Err::<(), TransferError>(e) == s.result
                &&& final(self).received@ == old(self).received@ + s.received
                &&& final(incoming)@ == old(incoming)@.skip(s.consumed as int)
                &&& final(outgoing)@ == old(outgoing)@ + recv_session_responses(
                    old(incoming)@,
                    old(self).local_sequence,
                    max_attempts as nat,
                )
                &&& s.result is Ok ==> final(self).state == ServerState::Closed
                &&& s.result is Err ==> final(self).state == ServerState::Error
            }),
    {
        let ghost q0 = old(incoming)@;
        let ghost out0 = old(outgoing)@;
        let ghost isn = old(self).local_sequence;
        let ghost m = max_attempts as nat;
        let ghost syn_ack_view = make_packet(PacketType::SynAck, isn, be32(isn));
        match self.handshake(incoming, outgoing, timeout_ms, max_attempts) {
            Err(e) => {
                proof {
                    assert(q0.skip(0) =~= q0);
                    if q0.len() >= 1 {
                        assert(q0.drop_first() =~= q0.skip(1));
                    }
                    assert(old(self).received@ + Seq::<u8>::empty() =~= old(self).received@);
                    assert(out0 + Seq::<PacketView>::empty() =~= out0);
                }
                return Err(e);
            },
            Ok(()) => {},
        }
        let ghost q1 = q0.skip(2);
        let ghost full = recv_loop_spec(q1);
        let ghost resp_full = recv_loop_responses(q1, isn, m);
        let ghost out1 = out0 + seq![syn_ack_view];
        let ghost mut consumed: nat = 0;
        let ghost mut gained: Seq<u8> = Seq::empty();
        let ghost mut sent: Seq<PacketView> = Seq::empty();
        let ghost received_start = self.received@;
        proof {
            assert(q1.skip(0) =~= q1);
            assert(received_start + Seq::<u8>::empty() =~= received_start);
            assert(Seq::<u8>::empty() + recv_loop_spec(q1).received =~= recv_loop_spec(
                q1,
            ).received);
            assert(Seq::<PacketView>::empty() + resp_full =~= resp_full);
            assert(out1 + Seq::<PacketView>::empty() =~= out1);
        }
        loop
            invariant
                self.state == ServerState::Established || self.state == ServerState::Receiving,
                self.local_sequence == old(self).local_sequence,
                self.received@ == received_start + gained,
                incoming@ == q1.skip(consumed as int),
                consumed <= q1.len(),
                full.result == recv_loop_spec(incoming@).result,
                full.received == gained + recv_loop_spec(incoming@).received,
                full.consumed == consumed + recv_loop_spec(incoming@).consumed,
                resp_full == sent + recv_loop_responses(incoming@, isn, m),
                outgoing@ == out1 + sent,
            decreases incoming@.len(),
        {
            let ghost q_now = incoming@;
            let ghost out_now = outgoing@;
            match self.receive_data(incoming, outgoing, timeout_ms, max_attempts) {
                Err(e) => {
                    proof {
                        if q_now.len() > 0 {
                            assert(q_now.drop_first() =~= q1.skip(consumed as int + 1));
                        }
                        assert(gained + Seq::<u8>::empty() =~= gained);
                        assert(recv_loop_responses(q_now, isn, m) =~= Seq::<PacketView>::empty());
                        assert(sent =~= resp_full);
                        assert(out0 + (seq![syn_ack_view] + resp_full) =~= out1 + resp_full);
                        assert(recv_session_responses(q0, isn, m) =~= seq![syn_ack_view]
                            + resp_full);
                    }
                    return Err(e);
                },
                Ok(ReceiveStatus::ChunkAccepted) => {
                    proof {
                        assert(q_now.drop_first() =~= q1.skip(consumed as int + 1));
                        assert(gained + (q_now[0].data + recv_loop_spec(
                            q_now.drop_first(),
                        ).received) =~= (gained + q_now[0].data) + recv_loop_spec(
                            q_now.drop_first(),
                        ).received);
                        assert(received_start + (gained + q_now[0].data) =~= (received_start
                            + gained) + q_now[0].data);
                        gained = gained + q_now[0].data;
                        consumed = consumed + 1;
                        let ack = make_packet(PacketType::Ack, isn, Seq::<u8>::empty());
                        assert(recv_loop_responses(q_now, isn, m) == seq![ack]
                            + recv_loop_responses(q_now.drop_first(), isn, m));
                        assert(sent + (seq![ack] + recv_loop_responses(
                            q_now.drop_first(),
                            isn,
                            m,
                        )) =~= (sent + seq![ack]) + recv_loop_responses(
                            q_now.drop_first(),
                            isn,
                            m,
                        ));
                        sent = sent + seq![ack];
                        assert(outgoing@ =~= out1 + sent);
                    }
                },
                Ok(ReceiveStatus::ChunkRejected) => {
                    proof {
                        assert(q_now.drop_first() =~= q1.skip(consumed as int + 1));
                        consumed = consumed + 1;
                        let nak = make_packet(PacketType::Nak, isn, Seq::<u8>::empty());
                        assert(recv_loop_responses(q_now, isn, m) == seq![nak]
                            + recv_loop_responses(q_now.drop_first(), isn, m));
                        assert(sent + (seq![nak] + recv_loop_responses(
                            q_now.drop_first(),
                            isn,
                            m,
                        )) =~= (sent + seq![nak]) + recv_loop_responses(
                            q_now.drop_first(),
                            isn,
                            m,
                        ));
                        sent = sent + seq![nak];
                        assert(outgoing@ =~= out1 + sent);
                    }
                },
                Ok(ReceiveStatus::FinReceived) => {
                    proof {
                        assert(q_now.drop_first() =~= q1.skip(consumed as int + 1));
                        consumed = consumed + 1;
                    }
                    let (ack, fin) = self.terminate();
                    let ghost close_ack = ack@;
                    let ghost close_fin = fin@;
                    outgoing.write(ack);
                    let out = crate::retry::with_retry(
                        incoming,
                        outgoing,
                        Some(&fin),
                        timeout_ms,
                        max_attempts,
                    );
                    match out.response {
                        None => {
                            self.state = ServerState::Error;
                            proof {
                                assert(gained + Seq::<u8>::empty() =~= gained);
                                assert(crate::retry::request_script(Some(&fin), m) =~= Seq::new(
                                    m,
                                    |i: int| close_fin,
                                ));
                                assert(recv_loop_responses(q_now, isn, m) == seq![close_ack]
                                    + Seq::new(m, |i: int| close_fin));
                                assert(outgoing@ =~= out1 + (sent + recv_loop_responses(
                                    q_now,
                                    isn,
                                    m,
                                )));
                                assert(out0 + (seq![syn_ack_view] + resp_full) =~= out1
                                    + resp_full);
                                assert(recv_session_responses(q0, isn, m) =~= seq![syn_ack_view]
                                    + resp_full);
                            }
                            return Err(TransferError::RetriesExhausted);
                        },
                        Some(response) => {
                            proof {
                                assert(incoming@ =~= q1.skip(consumed as int + 1));
                                assert(gained + Seq::<u8>::empty() =~= gained);
                                assert(crate::retry::request_script(Some(&fin), 1) =~= seq![
                                    close_fin,
                                ]);
                                assert(recv_loop_responses(q_now, isn, m) == seq![
                                    close_ack,
                                    close_fin,
                                ]);
                                assert(outgoing@ =~= out1 + (sent + recv_loop_responses(
                                    q_now,
                                    isn,
                                    m,
                                )));
                                assert(out0 + (seq![syn_ack_view] + resp_full) =~= out1
                                    + resp_full);
                                assert(recv_session_responses(q0, isn, m) =~= seq![syn_ack_view]
                                    + resp_full);
                            }
                            match self.on_final_ack(&response) {
                                Err(e) => {
                                    proof {
                                        consumed = consumed + 1;
                                    }
                                    return Err(e);
                                },
                                Ok(()) => {
                                    proof {
                                        consumed = consumed + 1;
                                    }
                                    return Ok(clone_bytes(&self.received));
                                },
                            }
                        },
                    }
                },
            }
        }
    }
}

/// Copies a byte vector, so that the copy provably carries the same view.
pub fn clone_bytes(src: &Vec<u8>) -> (r: Vec<u8>)
    ensures
        r@ == src@,
{
    let mut out: Vec<u8> = Vec::new();
    let mut i: usize = 0;
    while i < src.len()
        invariant
            i <= src@.len(),
            out@ == src@.take(i as int),
        decreases src@.len() - i,
    {
        out.push(src[i]);
        proof {
            assert(src@.take(i + 1) =~= src@.take(i as int).push(src@[i as int]));
        }
        i = i + 1;
    }
    proof {
        assert(src@.take(i as int) =~= src@);
    }
    out
}

/// Appends the bytes of `src` to `dst`.
pub fn append_bytes(dst: &mut Vec<u8>, src: &Vec<u8>)
    ensures
        final(dst)@ == old(dst)@ + src@,
{
    let mut i: usize = 0;
    while i < src.len()
        invariant
            i <= src@.len(),
            dst@ == old(dst)@ + src@.take(i as int),
        decreases src@.len() - i,
    {
        dst.push(src[i]);
        proof {
            assert(old(dst)@ + src@.take(i + 1) =~= (old(dst)@ + src@.take(i as int)).push(
                src@[i as int],
            ));
        }
        i = i + 1;
    }
    proof {
        assert(src@.take(i as int) =~= src@);
    }
}

} // verus!
