//! The sending side's retransmission state machine.
//!
//! A `Sender` holds the file contents and walks them block by block: the
//! surrounding program transmits `current_data`, waits for one packet, and
//! hands whatever arrived (or the fact that nothing did) to `on_response`,
//! repeating until the step says the transfer finished or aborted. All
//! decisions — when to advance, resend, or give up — are made here and are
//! verified; only the socket itself stays outside.
use vstd::prelude::*;

use crate::MAX_RETRIES;
use crate::attempts_exhausted;
use crate::block_num_of;
use crate::lemma_block_num_succ;
use crate::next_block;
use crate::next_block_exec;
use crate::Phase;
use crate::packet::ErrorCode;
use crate::packet::Packet;
use crate::packet::PacketModel;
use crate::packet::copy_range;

verus! {

/// What one response to a transmitted block means for the transfer.
#[derive(Debug)]
pub enum SendStep {
    /// The attempt failed; transmit the same block again.
    Resend,
    /// The block was acknowledged; transmit the next one.
    Advance,
    /// The final, short block was acknowledged; the transfer is complete.
    Finished,
    /// The peer reported an error; the transfer aborts with it, unretried.
    PeerError(ErrorCode, Vec<u8>),
    /// The retry budget is exhausted; the transfer aborts.
    TimedOut,
}

/// Whether the response acknowledges exactly the block in flight.
pub open spec fn is_matching_ack(response: Option<Packet>, block: u16) -> bool {
    match response {
        Some(Packet::Ack(n)) => n == block,
        _ => false,
    }
}

/// Whether the response is an error report from the peer.
pub open spec fn is_peer_error(response: Option<Packet>) -> bool {
    response matches Some(Packet::Error { .. })
}

/// The length of block `i` (counted from zero) of a `len`-byte file split
/// into blocks of `blk` bytes: full until the bytes run out, then one final
/// short block.
pub open spec fn chunk_len_at(len: int, blk: int, i: int) -> int {
    if len - i * blk < blk {
        len - i * blk
    } else {
        blk
    }
}

/// The sending side of one transfer.
pub struct Sender {
    /// The file being sent.
    pub contents: Vec<u8>,
    /// Negotiated block size.
    pub blk_size: usize,
    /// Bytes already acknowledged; start of the block in flight.
    pub offset: usize,
    /// Wire number of the block in flight.
    pub block_num: u16,
    /// Failed attempts at the block in flight.
    pub retries: u32,
    /// Where the transfer stands.
    pub phase: Phase,
    /// How many blocks have been fully acknowledged.
    pub acked: Ghost<nat>,
}

impl Sender {
    /// The byte length of the file.
    pub open spec fn file_len(self) -> int {
        self.contents@.len() as int
    }

    /// The length of the block in flight.
    pub open spec fn chunk_len(self) -> int {
        if self.file_len() - self.offset < self.blk_size {
            self.file_len() - self.offset
        } else {
            self.blk_size as int
        }
    }

    /// The machine's invariant: the offset walks the file in whole blocks,
    /// and the wire number is the block count plus one, modulo 65536.
    pub open spec fn wf(self) -> bool {
        &&& self.blk_size >= 1
        &&& self.offset <= self.file_len()
        &&& self.retries < MAX_RETRIES
        &&& (self.phase is Running ==> {
            &&& self.offset == self.acked@ * self.blk_size
            &&& self.acked@ <= self.file_len() / (self.blk_size as int)
            &&& self.block_num == block_num_of(self.acked@ + 1)
        })
        &&& (self.phase is Done ==> self.offset == self.file_len())
    }

    /// Starts a transfer of `contents` in blocks of `blk_size` bytes. The
    /// first data block is numbered one.
    pub fn new(contents: Vec<u8>, blk_size: usize) -> (s: Sender)
        requires
            blk_size >= 1,
        ensures
            s.wf(),
            s.phase is Running,
            s.contents == contents,
            s.blk_size == blk_size,
            s.offset == 0,
            s.block_num == 1,
            s.retries == 0,
            s.acked@ == 0,
    {
        proof {
            vstd::arithmetic::div_mod::lemma_small_mod(1nat, 65536nat);
            vstd::arithmetic::div_mod::lemma_div_pos_is_pos(contents@.len() as int,
                blk_size as int);
        }
        Sender {
            contents,
            blk_size,
            offset: 0,
            block_num: 1,
            retries: 0,
            phase: Phase::Running,
            acked: Ghost(0),
        }
    }

    /// Whether the transfer is still in progress.
    pub fn is_running(&self) -> (r: bool)
        ensures
            r == (self.phase is Running),
    {
        match self.phase {
            Phase::Running => true,
            _ => false,
        }
    }

    /// The data packet for the block in flight: the next `chunk_len` bytes
    /// of the file under the current wire number. Retransmissions hand back
    /// the identical packet.
    pub fn current_data(&self) -> (p: Packet)
        requires
            self.wf(),
            self.phase is Running,
        ensures
            p@ == (PacketModel::Data {
                block_num: self.block_num,
                data: self.contents@.subrange(self.offset as int, self.offset + self.chunk_len()),
            }),
            p@->Data_data.len() == chunk_len_at(
                self.file_len(),
                self.blk_size as int,
                self.acked@ as int,
            ),
    {
        let remaining = self.contents.len() - self.offset;
        let n = if remaining < self.blk_size {
            remaining
        } else {
            self.blk_size
        };
        let data = copy_range(&self.contents, self.offset, self.offset + n);
        Packet::Data { block_num: self.block_num, data }
    }

    /// One failed attempt: either the budget allows a resend, or the
    /// transfer aborts.
    fn fail(&mut self) -> (step: SendStep)
        requires
            old(self).wf(),
            old(self).phase is Running,
        ensures
            final(self).wf(),
            final(self).contents == old(self).contents,
            final(self).blk_size == old(self).blk_size,
            if attempts_exhausted(old(self).retries) {
                &&& step is TimedOut
                &&& final(self).phase is Aborted
            } else {
                &&& step is Resend
                &&& final(self).phase is Running
                &&& final(self).retries == old(self).retries + 1
                &&& final(self).offset == old(self).offset
                &&& final(self).block_num == old(self).block_num
                &&& final(self).acked == old(self).acked
            },
    {
        if self.retries + 1 >= MAX_RETRIES {
            self.phase = Phase::Aborted;
            SendStep::TimedOut
        } else {
            self.retries = self.retries + 1;
            SendStep::Resend
        }
    }

    /// Digests what came back after transmitting the block in flight: a
    /// matching acknowledgment advances (or, on the final short block,
    /// finishes) the transfer, a peer error aborts it unretried, and
    /// anything else — nothing at all, a mismatched acknowledgment, a stray
    /// packet — costs one attempt.
    pub fn on_response(&mut self, response: &Option<Packet>) -> (step: SendStep)
        requires
            old(self).wf(),
            old(self).phase is Running,
        ensures
            final(self).wf(),
            final(self).contents == old(self).contents,
            final(self).blk_size == old(self).blk_size,
            is_matching_ack(*response, old(self).block_num) ==> if old(self).chunk_len() < old(
                self,
            ).blk_size {
                &&& step is Finished
                &&& final(self).phase is Done
                &&& final(self).offset == old(self).file_len()
            } else {
                &&& step is Advance
                &&& final(self).phase is Running
                &&& final(self).offset == old(self).offset + old(self).blk_size
                &&& final(self).acked@ == old(self).acked@ + 1
                &&& final(self).block_num == next_block(old(self).block_num)
                &&& final(self).retries == 0
            },
            (*response) matches Some(Packet::Error { code, msg }) ==> ({
                &&& step matches SendStep::PeerError(c, m) && c == code && m@ == msg@
                &&& final(self).phase is Aborted
            }),
            (!is_matching_ack(*response, old(self).block_num) && !is_peer_error(*response))
                ==> if attempts_exhausted(old(self).retries) {
                &&& step is TimedOut
                &&& final(self).phase is Aborted
            } else {
                &&& step is Resend
                &&& final(self).phase is Running
                &&& final(self).retries == old(self).retries + 1
                &&& final(self).offset == old(self).offset
                &&& final(self).block_num == old(self).block_num
                &&& final(self).acked == old(self).acked
            },
    {
        match response {
            Some(Packet::Ack(n)) => {
                if *n == self.block_num {
                    let remaining = self.contents.len() - self.offset;
                    if remaining < self.blk_size {
                        self.offset = self.contents.len();
                        self.phase = Phase::Done;
                        SendStep::Finished
                    } else {
                        proof {
                            let a = self.acked@;
                            let blk = self.blk_size as int;
                            let len = self.file_len();
                            assert((a + 1) * blk == a * blk + blk) by (nonlinear_arith);
                            vstd::arithmetic::div_mod::lemma_div_is_ordered(
                                (a + 1) * blk,
                                len,
                                blk,
                            );
                            vstd::arithmetic::div_mod::lemma_div_by_multiple(a as int + 1, blk);
                            lemma_block_num_succ(a + 1);
                        }
                        self.offset = self.offset + self.blk_size;
                        self.block_num = next_block_exec(self.block_num);
                        self.retries = 0;
                        proof {
                            self.acked@ = self.acked@ + 1;
                        }
                        SendStep::Advance
                    }
                } else {
                    self.fail()
                }
            },
            Some(Packet::Error { code, msg }) => {
                self.phase = Phase::Aborted;
                let m = copy_range(msg, 0, msg.len());
                assert(msg@.subrange(0, msg@.len() as int) =~= msg@);
                SendStep::PeerError(*code, m)
            },
            _ => self.fail(),
        }
    }
}

/// Block framing: a file of `len` bytes sent in blocks of `blk` bytes
/// yields `len / blk` blocks of exactly `blk` bytes — block indices `0`
/// through `len / blk - 1` — followed by exactly one final block of
/// `len % blk` bytes (zero bytes when `blk` divides `len`), the only block
/// shorter than `blk`, whose acknowledgment ends the transfer.
pub proof fn lemma_block_framing(len: int, blk: int, i: int)
    requires
        blk >= 1,
        0 <= len,
        0 <= i <= len / blk,
    ensures
        i < len / blk ==> chunk_len_at(len, blk, i) == blk,
        i == len / blk ==> chunk_len_at(len, blk, i) == len % blk,
        (chunk_len_at(len, blk, i) < blk) <==> (i == len / blk),
{
    vstd::arithmetic::div_mod::lemma_fundamental_div_mod(len, blk);
    vstd::arithmetic::div_mod::lemma_mod_division_less_than_divisor(len, blk);
    if i < len / blk {
        assert(i * blk + blk <= (len / blk) * blk) by (nonlinear_arith)
            requires
                i + 1 <= len / blk,
                blk >= 1,
        ;
    } else {
        assert(i * blk == (len / blk) * blk);
    }
}

} // verus!
