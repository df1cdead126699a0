//! Channel abstraction: an in-memory, FIFO packet stream. One role writes
//! framed packets, the peer reads them. The model is single-threaded and
//! cooperative, so a bounded wait elapses exactly when no packet is queued:
//! `read_with_timeout` returns `None` in that case and the caller's retry
//! engine counts the attempt.

use vstd::prelude::*;
use std::collections::VecDeque;
use crate::codec::{Packet, PacketView};

verus! {

/// An in-memory FIFO of framed packets; the test double of the unreliable
/// medium. Loss and corruption are injected by whoever holds the stream,
/// not by the stream itself.
pub struct PacketStream {
    buffer: VecDeque<Packet>,
}

impl View for PacketStream {
    type V = Seq<PacketView>;

    closed spec fn view(&self) -> Seq<PacketView> {
        self.buffer@.map_values(|p: Packet| p@)
    }
}

impl PacketStream {
    pub fn new() -> (r: PacketStream)
        ensures
            r@ == Seq::<PacketView>::empty(),
    {
        let r = PacketStream { buffer: VecDeque::new() };
        proof {
            assert(r@ =~= Seq::<PacketView>::empty());
        }
        r
    }

    pub fn len(&self) -> (r: usize)
        ensures
            r == self@.len(),
    {
        self.buffer.len()
    }

    /// Enqueues a packet for the peer. Accepting it does not mean the peer
    /// received it: the peer may never read.
    pub fn write(&mut self, packet: Packet)
        ensures
            final(self)@ == old(self)@.push(packet@),
    {
        let ghost before = self.buffer@;
        self.buffer.push_back(packet);
        proof {
            assert(self@ =~= old(self)@.push(packet@));
        }
    }

    /// Dequeues the oldest packet, or reports that none is available.
    pub fn read(&mut self) -> (r: Option<Packet>)
        ensures
            old(self)@.len() == 0 ==> r is None && final(self)@ == old(self)@,
            old(self)@.len() > 0 ==> (r matches Some(p) && p@ == old(self)@[0] && final(self)@ == old(
                self,
            )@.drop_first()),
    {
        let r = self.buffer.pop_front();
        proof {
            if old(self)@.len() > 0 {
                assert(self@ =~= old(self)@.drop_first());
            }
        }
        r
    }

    /// Dequeues the oldest packet, waiting at most the given bound. In this
    /// in-memory, cooperative model nothing can arrive while the caller
    /// holds the stream, so the bound elapses exactly when the queue is
    /// empty.
    pub fn read_with_timeout(&mut self, timeout_ms: u64) -> (r: Option<Packet>)
        ensures
            old(self)@.len() == 0 ==> r is None && final(self)@ == old(self)@,
            old(self)@.len() > 0 ==> (r matches Some(p) && p@ == old(self)@[0] && final(self)@ == old(
                self,
            )@.drop_first()),
    {
        let _ = timeout_ms;
        self.read()
    }

    /// Dequeues the oldest packet of a stream known to be non-empty.
    pub fn read_front(&mut self) -> (r: Packet)
        requires
            old(self)@.len() > 0,
        ensures
            r@ == old(self)@[0],
            final(self)@ == old(self)@.drop_first(),
    {
        self.read().unwrap()
    }

    /// Sends a packet over the stream: the write side of the channel
    /// interface.
    pub fn send_packet(&mut self, packet: Packet)
        ensures
            final(self)@ == old(self)@.push(packet@),
    {
        self.write(packet);
    }

    /// Receives a packet from the stream within a bounded wait: the read
    /// side of the channel interface.
    pub fn receive_packet(&mut self, timeout_ms: u64) -> (r: Option<Packet>)
        ensures
            old(self)@.len() == 0 ==> r is None && final(self)@ == old(self)@,
            old(self)@.len() > 0 ==> (r matches Some(p) && p@ == old(self)@[0] && final(self)@ == old(
                self,
            )@.drop_first()),
    {
        self.read_with_timeout(timeout_ms)
    }
}

} // verus!
