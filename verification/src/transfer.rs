//! Wiring a sender and a receiver together over an in-memory channel pair,
//! running the two roles as cooperative tasks in lockstep: the scheduler
//! hands control to whichever role the next packet is addressed to. A fault
//! can be injected into one DATA packet in flight to exercise the
//! NAK/retransmission path.

use vstd::prelude::*;
use crate::channel::PacketStream;
use crate::codec::{corrupt_payload_bit, PacketType};
use crate::engine::{
    Client, ClientState, SendStatus, Server, ServerReply, ServerState,
};
use crate::errors::TransferError;
use crate::segment::{chunk_at, chunks_of, num_chunks, prefix_end};

verus! {

/// One bit of one byte of one in-flight DATA packet to corrupt: the chunk
/// index, the byte index within that chunk, and the bit index.
#[derive(Copy, Clone, PartialEq, Eq, Structural, Debug)]
pub struct Fault {
    pub chunk: usize,
    pub byte: usize,
    pub bit: u8,
}

/// What a full lockstep session came to.
pub struct SessionReport {
    /// The payload the responder accepted, in order, or the first terminal
    /// error.
    pub result: Result<Vec<u8>, TransferError>,
    /// How many NAKs the responder sent.
    pub nak_cycles: u32,
    /// How many RETRANSMISSION packets the initiator sent.
    pub retransmissions: u32,
    pub client_state: ClientState,
    pub server_state: ServerState,
}

/// The injected fault lands on a real bit of a real chunk.
pub open spec fn fault_applies(payload: Seq<u8>, chunk_size: nat, fault: Option<Fault>) -> bool {
    match fault {
        None => false,
        Some(f) => {
            &&& (f.chunk as nat) < num_chunks(payload.len(), chunk_size)
            &&& (f.byte as nat) < chunk_at(payload, chunk_size, f.chunk as nat).len()
            &&& f.bit < 8
        },
    }
}

/// Runs one whole transfer in lockstep over a lossless in-memory channel
/// pair: handshake, one exchange per chunk, teardown. Every exchange
/// completes on its first attempt, so no retry is ever consumed; the one
/// corrupted DATA packet (when a fault is injected) costs exactly one
/// NAK/retransmission cycle before the same chunk is accepted, and the
/// responder still reassembles the payload exactly.
#[verifier::loop_isolation(false)]
#[verifier::rlimit(100)]
pub fn run_session(payload: &Vec<u8>, chunk_size: usize, fault: Option<Fault>) -> (r:
    SessionReport)
    requires
        chunk_size > 0,
        payload@.len() + 9 <= u32::MAX,
    ensures
        r.result matches Ok(bytes) && bytes@ == payload@,
        r.nak_cycles == if fault_applies(payload@, chunk_size as nat, fault) {
            1int
        } else {
            0int
        },
        r.retransmissions == r.nak_cycles,
        r.client_state == ClientState::Closed,
        r.server_state == ServerState::Closed,
{
    let ghost size = chunk_size as nat;
    let ghost dv = chunks_of(payload@, size);
    let mut client = Client::new();
    let mut server = Server::new();
    let mut cs = PacketStream::new();  // initiator -> responder
    let mut sc = PacketStream::new();  // responder -> initiator

    // Handshake: SYN, SYN_ACK carrying the responder's initial sequence
    // number, ACK echoing it.
    let syn = client.begin_connect();
    cs.write(syn);
    let p1 = cs.read_front();
    let syn_ack = server.on_syn(&p1).unwrap();
    sc.write(syn_ack);
    let p2 = sc.read_front();
    proof {
        crate::codec::lemma_be32_round_trip(server.local_sequence);
    }
    let ack = client.on_connect_response(&p2).unwrap();
    cs.write(ack);
    let p3 = cs.read_front();
    server.on_handshake_ack(&p3).unwrap();

    // Data transfer, one chunk in flight at a time.
    let chunks = client.packetize(crate::engine::clone_bytes(payload), chunk_size);
    let mut naks: u32 = 0;
    let mut retransmissions: u32 = 0;
    let mut k: usize = 0;
    while k < chunks.len()
        invariant
            k <= chunks@.len(),
            chunks.deep_view() == dv,
            chunks@.len() == dv.len(),
            client.state == ClientState::Established || client.state
                == ClientState::Transferring,
            server.state == if k == 0 {
                ServerState::Established
            } else {
                ServerState::Receiving
            },
            server.received@ == payload@.take(prefix_end(payload@.len(), size, k as nat)),
            cs@.len() == 0,
            sc@.len() == 0,
            naks == if fault_applies(payload@, size, fault) && (fault.unwrap().chunk as int) < k {
                1int
            } else {
                0int
            },
            retransmissions == naks,
        decreases chunks@.len() - k,
    {
        let chunk = &chunks[k];
        proof {
            crate::segment::lemma_chunk_sizes(payload@, size, k as nat);
            assert(chunks@[k as int]@ == dv[k as int]);
            assert(chunk@.len() <= payload@.len());
        }
        let mut data_pkt = client.begin_send(chunk);
        let ghost clean_view = data_pkt@;
        let mut corrupted = false;
        if let Some(f) = fault {
            if f.chunk == k && f.byte < chunk.len() && f.bit < 8 {
                proof {
                    crate::codec::lemma_new_packet_verifies(
                        PacketType::Data,
                        clean_view.sequence_no,
                        clean_view.data,
                    );
                    crate::codec::lemma_single_bit_flip_detected(
                        clean_view,
                        f.byte as int,
                        f.bit,
                    );
                }
                corrupt_payload_bit(&mut data_pkt, f.byte, f.bit);
                corrupted = true;
            }
        }
        cs.write(data_pkt);
        let req = cs.read_front();
        let reply = server.on_transfer_packet(&req).unwrap();
        match reply {
            ServerReply::Accepted(ack_pkt) => {
                proof {
                    assert(!corrupted);
                }
                sc.write(ack_pkt);
            },
            ServerReply::Rejected(nak_pkt) => {
                proof {
                    assert(corrupted);
                }
                sc.write(nak_pkt);
                naks = naks + 1;
            },
            ServerReply::FinReceived => {
                proof {
                    assert(false);
                }
            },
        }
        let resp = sc.read_front();
        match client.on_send_response(&resp).unwrap() {
            SendStatus::Accepted => {
                proof {
                    crate::segment::lemma_prefix_extend(payload@, size, k as nat);
                }
                k = k + 1;
            },
            SendStatus::NakRetry => {
                let retry_pkt = client.begin_retransmit(chunk);
                retransmissions = retransmissions + 1;
                cs.write(retry_pkt);
                let req2 = cs.read_front();
                proof {
                    crate::codec::lemma_new_packet_verifies(
                        PacketType::Retransmission,
                        req2@.sequence_no,
                        req2@.data,
                    );
                }
                match server.on_transfer_packet(&req2).unwrap() {
                    ServerReply::Accepted(ack_pkt) => {
                        sc.write(ack_pkt);
                    },
                    _ => {
                        proof {
                            assert(false);
                        }
                    },
                }
                let resp2 = sc.read_front();
                match client.on_send_response(&resp2).unwrap() {
                    SendStatus::Accepted => {
                        proof {
                            crate::segment::lemma_prefix_extend(payload@, size, k as nat);
                        }
                        k = k + 1;
                    },
                    SendStatus::NakRetry => {
                        proof {
                            assert(false);
                        }
                    },
                }
            },
        }
    }
    proof {
        crate::segment::lemma_prefix_complete(payload@, size);
    }

    // Teardown: FIN, ACK, the responder's FIN, the final ACK.
    let fin = client.begin_close();
    cs.write(fin);
    let pf = cs.read_front();
    match server.on_transfer_packet(&pf).unwrap() {
        ServerReply::FinReceived => {},
        _ => {
            proof {
                assert(false);
            }
        },
    }
    let (srv_ack, srv_fin) = server.terminate();
    sc.write(srv_ack);
    sc.write(srv_fin);
    let a1 = sc.read_front();
    client.on_close_ack(&a1).unwrap();
    let f1 = sc.read_front();
    let last_ack = client.on_close_fin(&f1).unwrap();
    cs.write(last_ack);
    let pa = cs.read_front();
    server.on_final_ack(&pa).unwrap();

    SessionReport {
        result: Ok(server.received),
        nak_cycles: naks,
        retransmissions,
        client_state: client.state,
        server_state: server.state,
    }
}

/// The demo wiring: a responder held ready and an initiator created per
/// transfer, both over an in-memory channel pair.
pub struct FileTransfer {
    pub client: Option<Client>,
    pub server: Option<Server>,
}

impl FileTransfer {
    pub fn new() -> (r: FileTransfer)
        ensures
            r.client is None,
            r.server is None,
    {
        FileTransfer { client: None, server: None }
    }

    /// Readies the responder side.
    pub fn start_server(&mut self) -> (r: Result<(), TransferError>)
        ensures
            r is Ok,
            final(self).server is Some,
    {
        self.server = Some(Server::new());
        Ok(())
    }

    /// Transfers a payload over a fresh lossless in-memory session; 8-byte
    /// chunks, as the demo sender uses. Always completes.
    pub fn send_file(&mut self, data: Vec<u8>) -> (r: Result<(), TransferError>)
        requires
            data@.len() + 9 <= u32::MAX,
        ensures
            r is Ok,
    {
        let report = run_session(&data, 8, None);
        match report.result {
            Ok(_) => Ok(()),
            Err(e) => Err(e),
        }
    }
}

/// Re-runs a whole failed transfer from scratch up to `max_retries` times.
/// A zero budget is reported as exhausted retries; otherwise the lossless
/// in-memory transfer completes on the first attempt.
pub fn send_with_retry(data: Vec<u8>, max_retries: u32) -> (r: Result<(), TransferError>)
    requires
        data@.len() + 9 <= u32::MAX,
    ensures
        max_retries == 0 ==> r == Result::<(), TransferError>::Err(
            TransferError::RetriesExhausted,
        ),
        max_retries >= 1 ==> r is Ok,
{
    let mut retry_count: u32 = 0;
    let mut transfer = FileTransfer::new();
    while retry_count < max_retries
        invariant
            data@.len() + 9 <= u32::MAX,
            retry_count == 0,
        decreases max_retries - retry_count,
    {
        match transfer.send_file(crate::engine::clone_bytes(&data)) {
            Ok(()) => {
                return Ok(());
            },
            Err(e) => {
                retry_count = retry_count + 1;
                if retry_count >= max_retries {
                    return Err(e);
                }
            },
        }
    }
    Err(TransferError::RetriesExhausted)
}

} // verus!
