//! The receiving side's retransmission state machine.
//!
//! A `Receiver` accepts data blocks strictly in order: the surrounding
//! program waits for one packet, hands it (or the fact that nothing came)
//! to `on_packet`, writes out the payload of an accepted block, transmits
//! `ack_packet`, and repeats until a short block ends the transfer. All
//! decisions are made and verified here; the socket and the file stay
//! outside.
use vstd::prelude::*;

use crate::MAX_RETRIES;
use crate::attempts_exhausted;
use crate::block_num_of;
use crate::lemma_block_num_succ;
use crate::next_block;
use crate::next_block_exec;
use crate::packet::ErrorCode;
use crate::packet::Packet;
use crate::packet::PacketModel;
use crate::packet::copy_range;
use crate::Phase;
use crate::sender::is_peer_error;

verus! {

/// What one received packet means for the transfer.
#[derive(Debug)]
pub enum RecvStep {
    /// The expected block arrived: its payload, to be appended to the
    /// file; the acknowledgment owed is `ack_packet`.
    Accepted(Vec<u8>),
    /// The attempt failed; wait for another packet.
    Retry,
    /// The peer reported an error; the transfer aborts with it, unretried.
    PeerError(ErrorCode, Vec<u8>),
    /// The retry budget is exhausted; the transfer aborts.
    TimedOut,
}

/// Whether the response is the data block the receiver expects next: the
/// successor wire number, sized within the negotiated block size.
pub open spec fn is_expected_data(response: Option<Packet>, expected: u16, blk: int) -> bool {
    match response {
        Some(Packet::Data { block_num, data }) => block_num == expected && data.len() <= blk,
        _ => false,
    }
}

/// The receiving side of one transfer.
pub struct Receiver {
    /// Negotiated block size.
    pub blk_size: usize,
    /// Wire number of the last accepted block; zero before any block.
    pub block_num: u16,
    /// Failed attempts at the block expected next.
    pub retries: u32,
    /// Where the transfer stands.
    pub phase: Phase,
    /// Every payload byte accepted so far, in order.
    pub received: Ghost<Seq<u8>>,
    /// How many blocks have been accepted.
    pub blocks: Ghost<nat>,
}

impl Receiver {
    /// The machine's invariant: the wire number is the accepted block
    /// count modulo 65536, and while the transfer runs every accepted
    /// block was full.
    pub open spec fn wf(self) -> bool {
        &&& self.blk_size >= 1
        &&& self.retries < MAX_RETRIES
        &&& (self.phase is Running ==> {
            &&& self.block_num == block_num_of(self.blocks@)
            &&& self.received@.len() == self.blocks@ * self.blk_size
        })
    }

    /// Starts a receive in blocks of `blk_size` bytes. Nothing is accepted
    /// yet, so the first acceptable block is numbered one.
    pub fn new(blk_size: usize) -> (r: Receiver)
        requires
            blk_size >= 1,
        ensures
            r.wf(),
            r.phase is Running,
            r.blk_size == blk_size,
            r.block_num == 0,
            r.retries == 0,
            r.received@ == Seq::<u8>::empty(),
            r.blocks@ == 0,
    {
        proof {
            vstd::arithmetic::div_mod::lemma_small_mod(0nat, 65536nat);
        }
        Receiver {
            blk_size,
            block_num: 0,
            retries: 0,
            phase: Phase::Running,
            received: Ghost(Seq::empty()),
            blocks: Ghost(0),
        }
    }

    /// Whether the transfer is still in progress.
    pub fn is_running(&self) -> (r: bool)
        ensures
            r == (self.phase is Running),
    {
        match self.phase {
            Phase::Running => true,
            _ => false,
        }
    }

    /// One failed attempt: either the budget allows another wait, or the
    /// transfer aborts.
    fn fail(&mut self) -> (step: RecvStep)
        requires
            old(self).wf(),
            old(self).phase is Running,
        ensures
            final(self).wf(),
            final(self).blk_size == old(self).blk_size,
            if attempts_exhausted(old(self).retries) {
                &&& step is TimedOut
                &&& final(self).phase is Aborted
            } else {
                &&& step is Retry
                &&& final(self).phase is Running
                &&& final(self).retries == old(self).retries + 1
                &&& final(self).block_num == old(self).block_num
                &&& final(self).received == old(self).received
                &&& final(self).blocks == old(self).blocks
            },
    {
        if self.retries + 1 >= MAX_RETRIES {
            self.phase = Phase::Aborted;
            RecvStep::TimedOut
        } else {
            self.retries = self.retries + 1;
            RecvStep::Retry
        }
    }

    /// Digests one received packet. The data block whose wire number is
    /// the successor of the last accepted one — and only that block — is
    /// accepted: its payload is handed back to be written out, and a short
    /// payload ends the transfer. A peer error aborts unretried. Anything
    /// else — nothing at all, a duplicate or out-of-order block, an
    /// oversized block, a stray packet — costs one attempt.
    pub fn on_packet(&mut self, response: &Option<Packet>) -> (step: RecvStep)
        requires
            old(self).wf(),
            old(self).phase is Running,
        ensures
            final(self).wf(),
            final(self).blk_size == old(self).blk_size,
            is_expected_data(*response, next_block(old(self).block_num), old(self).blk_size as int)
                ==> ({
                &&& step matches RecvStep::Accepted(d) && d@ == response->Some_0->Data_data@
                &&& final(self).block_num == next_block(old(self).block_num)
                &&& final(self).retries == 0
                &&& final(self).blocks@ == old(self).blocks@ + 1
                &&& final(self).received@ == old(self).received@ + response->Some_0->Data_data@
                &&& final(self).phase == (if response->Some_0->Data_data@.len() < old(
                    self,
                ).blk_size {
                    Phase::Done
                } else {
                    Phase::Running
                })
            }),
            (*response) matches Some(Packet::Error { code, msg }) ==> ({
                &&& step matches RecvStep::PeerError(c, m) && c == code && m@ == msg@
                &&& final(self).phase is Aborted
            }),
            (!is_expected_data(*response, next_block(old(self).block_num), old(self).blk_size as int)
                && !is_peer_error(*response)) ==> if attempts_exhausted(old(self).retries) {
                &&& step is TimedOut
                &&& final(self).phase is Aborted
            } else {
                &&& step is Retry
                &&& final(self).phase is Running
                &&& final(self).retries == old(self).retries + 1
                &&& final(self).block_num == old(self).block_num
                &&& final(self).received == old(self).received
                &&& final(self).blocks == old(self).blocks
            },
    {
        match response {
            Some(Packet::Data { block_num, data }) => {
                let expected = next_block_exec(self.block_num);
                if *block_num == expected && data.len() <= self.blk_size {
                    proof {
                        lemma_block_num_succ(self.blocks@);
                    }
                    self.block_num = expected;
                    self.retries = 0;
                    let short = data.len() < self.blk_size;
                    proof {
                        self.received@ = self.received@ + data@;
                        self.blocks@ = self.blocks@ + 1;
                        if !short {
                            let b = self.blocks@;
                            let blk = self.blk_size as int;
                            assert((b - 1) * blk + blk == b * blk) by (nonlinear_arith);
                        }
                    }
                    if short {
                        self.phase = Phase::Done;
                    }
                    let d = copy_range(data, 0, data.len());
                    proof {
                        assert(data@.subrange(0, data@.len() as int) =~= data@);
                        assert(d@ =~= data@);
                    }
                    RecvStep::Accepted(d)
                } else {
                    self.fail()
                }
            },
            Some(Packet::Error { code, msg }) => {
                self.phase = Phase::Aborted;
                let m = copy_range(msg, 0, msg.len());
                assert(msg@.subrange(0, msg@.len() as int) =~= msg@);
                RecvStep::PeerError(*code, m)
            },
            _ => self.fail(),
        }
    }

    /// The acknowledgment owed for the last accepted block — before any
    /// block, the bare acknowledgment of block zero.
    pub fn ack_packet(&self) -> (p: Packet)
        ensures
            p@ == PacketModel::Ack(self.block_num),
    {
        Packet::Ack(self.block_num)
    }
}

} // verus!
