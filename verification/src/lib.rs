//! Transfer engine for a lock-step file-transfer protocol over an unreliable
//! datagram transport: the wire codec for its packets, the negotiation of
//! per-transfer options, and the send/receive retransmission state machines.
//!
//! Everything here is pure logic on plain values. The surrounding program
//! owns the socket and the file, feeds packets and file bytes in, and carries
//! the packets this library asks it to transmit.
use vstd::prelude::*;

pub mod packet;
pub mod receiver;
pub mod sender;
pub mod worker;

verus! {

/// How many times a block is attempted before the transfer is abandoned.
pub const MAX_RETRIES: u32 = 6;

/// The stage a transfer stands in.
#[derive(Clone, Copy, PartialEq, Eq, Structural, Debug)]
pub enum Phase {
    Running,
    Done,
    Aborted,
}

/// The block number that follows `b`: block numbers are 16-bit and wrap.
pub open spec fn next_block(b: u16) -> u16 {
    if b == 65535 {
        0
    } else {
        (b + 1) as u16
    }
}

/// Wire block numbers are 16-bit and wrap modulo 65536: the successor of
/// 65535 is 0, and below that the successor is the ordinary increment.
/// The sending side advances with `next_block` after each matching
/// acknowledgment, and the receiving side accepts exactly the packet
/// numbered `next_block` of its last accepted block, so both ends agree
/// on the successor of every block number, 65535 included.
pub proof fn lemma_block_wraparound()
    ensures
        next_block(65535) == 0,
        forall|b: u16| b < 65535 ==> next_block(b) == b + 1,
{
}

/// The block number that follows `b`.
pub fn next_block_exec(b: u16) -> (r: u16)
    ensures
        r == next_block(b),
{
    if b == 65535 {
        0
    } else {
        b + 1
    }
}

/// The wire number of the block at count `a`: counts wrap modulo 65536.
pub open spec fn block_num_of(a: nat) -> u16 {
    (a % 65536) as u16
}

/// Counting one block further moves the wire number to its successor.
pub proof fn lemma_block_num_succ(a: nat)
    ensures
        block_num_of(a + 1) == next_block(block_num_of(a)),
{
    let m = 65536int;
    let x = a as int;
    vstd::arithmetic::div_mod::lemma_add_mod_noop(x, 1, m);
    vstd::arithmetic::div_mod::lemma_mod_division_less_than_divisor(x, m);
    assert(1int % m == 1) by {
        vstd::arithmetic::div_mod::lemma_small_mod(1nat, 65536nat);
    }
    let r = x % m;
    assert((x + 1) % m == (r + 1) % m);
    if r == 65535 {
        assert((r + 1) % m == 0) by {
            vstd::arithmetic::div_mod::lemma_mod_self_0(m);
        }
    } else {
        assert((r + 1) % m == r + 1) by {
            vstd::arithmetic::div_mod::lemma_small_mod((r + 1) as nat, 65536nat);
        }
    }
}

/// Whether one more failed attempt on the current block exhausts the retry
/// budget.
pub open spec fn attempts_exhausted(retries: u32) -> bool {
    retries + 1 >= MAX_RETRIES
}

/// Retry bound: attempts at one block are counted from zero, a failed
/// attempt either raises the count by one or, when it exhausts the budget,
/// aborts the transfer. Counting from a fresh block, the k-th consecutive
/// failure is tolerated while k < MAX_RETRIES and the MAX_RETRIES-th aborts:
/// exactly MAX_RETRIES attempts in all, never one more.
pub proof fn lemma_retry_bound(k: nat)
    requires
        1 <= k <= MAX_RETRIES,
    ensures
        k < MAX_RETRIES ==> !attempts_exhausted((k - 1) as u32),
        k == MAX_RETRIES ==> attempts_exhausted((k - 1) as u32),
{
}

} // verus!
