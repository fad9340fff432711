//! Per-transfer negotiation and handshake decisions.
//!
//! A worker owns one transfer. Before any data moves, the options the peer
//! requested are interpreted into concrete parameters (`parse_options`), and
//! the initial reply — an option acknowledgment, a bare acknowledgment, or
//! nothing — is chosen (`accept_request`, or both steps at once through
//! `Worker::prepare`). Negotiation completes before the reply is formed, so
//! the acknowledgment always carries the negotiated values, never the
//! requested placeholders.
use vstd::prelude::*;

use crate::packet::ErrorCode;
use crate::packet::OptionType;
use crate::packet::Packet;
use crate::packet::PacketModel;
use crate::packet::TransferOption;
use crate::packet::copy_range;

verus! {

/// The direction of one transfer; a send knows the local file's byte length.
#[derive(Clone, Copy, PartialEq, Eq, Structural, Debug)]
pub enum WorkType {
    Receive,
    Send(u64),
}

/// The concrete per-transfer parameters that negotiation produces.
#[derive(Clone, Copy, PartialEq, Eq, Structural, Debug)]
pub struct WorkerOptions {
    /// Bytes per data block; every block but the last is exactly this long.
    pub blk_size: usize,
    /// The peer's declared total size when receiving; informational only.
    pub t_size: usize,
    /// Socket deadline in seconds.
    pub timeout: u64,
}

/// Negotiation failure: an option carried an invalid value.
#[derive(Clone, Copy, PartialEq, Eq, Structural, Debug)]
pub enum NegotiationError {
    InvalidOption,
}

/// What negotiation produced: the runtime parameters, and the option list
/// to be acknowledged to the peer. The caller's requested list is left
/// untouched.
#[derive(Debug)]
pub struct Negotiation {
    pub options: WorkerOptions,
    pub acknowledged: Vec<TransferOption>,
}

/// The parameters before any option is applied.
pub open spec fn default_options() -> WorkerOptions {
    WorkerOptions { blk_size: 512, t_size: 0, timeout: 5 }
}

/// One option applied to the parameters. A block size is stored directly; a
/// transfer size is recorded only when receiving (when sending the local
/// file length is authoritative); a timeout is stored directly.
pub open spec fn apply_option(p: WorkerOptions, o: TransferOption, wt: WorkType) -> WorkerOptions {
    match o.option {
        OptionType::BlockSize => WorkerOptions { blk_size: o.value, ..p },
        OptionType::TransferSize => match wt {
            WorkType::Send(_) => p,
            WorkType::Receive => WorkerOptions { t_size: o.value, ..p },
        },
        OptionType::Timeout => WorkerOptions { timeout: o.value as u64, ..p },
    }
}

/// The parameters after the whole option list is applied in order.
pub open spec fn params_of(options: Seq<TransferOption>, wt: WorkType) -> WorkerOptions
    decreases options.len(),
{
    if options.len() == 0 {
        default_options()
    } else {
        apply_option(params_of(options.drop_last(), wt), options.last(), wt)
    }
}

/// Whether the option list carries a timeout of zero, which negotiation
/// rejects before any network traffic.
pub open spec fn timeout_rejected(options: Seq<TransferOption>) -> bool {
    exists|i: int|
        0 <= i < options.len() && options[i].option is Timeout && options[i].value == 0
}

/// The value an option takes in the acknowledged list: when sending, a
/// requested transfer size is replaced by the true byte length of the local
/// file; everything else is acknowledged as requested.
pub open spec fn ack_value(o: TransferOption, wt: WorkType) -> TransferOption {
    match wt {
        WorkType::Receive => o,
        WorkType::Send(size) => if o.option is TransferSize {
            TransferOption { option: OptionType::TransferSize, value: size as usize }
        } else {
            o
        },
    }
}

/// The option list as acknowledged to the peer.
pub open spec fn subst_tsize(options: Seq<TransferOption>, wt: WorkType) -> Seq<TransferOption> {
    options.map_values(|o: TransferOption| ack_value(o, wt))
}

/// Interprets the requested options into runtime parameters and the option
/// list to acknowledge. Fails, before any network traffic, exactly when a
/// Timeout option carries the value zero.
pub fn parse_options(options: &Vec<TransferOption>, work_type: &WorkType) -> (r: Result<
    Negotiation,
    NegotiationError,
>)
    requires
        (*work_type) matches WorkType::Send(size) ==> size <= usize::MAX as u64,
    ensures
        match r {
            Ok(n) => !timeout_rejected(options@) && n.options == params_of(options@, *work_type)
                && n.acknowledged@ == subst_tsize(options@, *work_type),
            Err(e) => timeout_rejected(options@) && e == NegotiationError::InvalidOption,
        },
{
    let mut worker_options = WorkerOptions { blk_size: 512, t_size: 0, timeout: 5 };
    let mut acknowledged: Vec<TransferOption> = Vec::new();
    let mut i: usize = 0;
    while i < options.len()
        invariant
            i <= options.len(),
            (*work_type) matches WorkType::Send(size) ==> size <= usize::MAX as u64,
            worker_options == params_of(options@.take(i as int), *work_type),
            acknowledged@.len() == i,
            forall|k: int| 0 <= k < i ==> acknowledged@[k] == ack_value(options@[k], *work_type),
            !timeout_rejected(options@.take(i as int)),
        decreases options.len() - i,
    {
        let o = options[i];
        match o.option {
            OptionType::BlockSize => {
                worker_options.blk_size = o.value;
                acknowledged.push(o);
            },
            OptionType::TransferSize => {
                match *work_type {
                    WorkType::Send(size) => {
                        acknowledged.push(
                            TransferOption { option: OptionType::TransferSize, value: size as usize },
                        );
                    },
                    WorkType::Receive => {
                        worker_options.t_size = o.value;
                        acknowledged.push(o);
                    },
                }
            },
            OptionType::Timeout => {
                if o.value == 0 {
                    assert(options@[i as int].option is Timeout && options@[i as int].value == 0);
                    return Err(NegotiationError::InvalidOption);
                }
                worker_options.timeout = o.value as u64;
                acknowledged.push(o);
            },
        }
        i += 1;
        proof {
            assert(options@.take(i as int).drop_last() =~= options@.take(i - 1));
            assert(options@.take(i as int).last() == options@[i - 1]);
            if timeout_rejected(options@.take(i as int)) {
                let k = choose|k: int|
                    0 <= k < i && options@.take(i as int)[k].option is Timeout && options@.take(
                        i as int,
                    )[k].value == 0;
                assert(options@.take(i - 1)[k] == options@.take(i as int)[k] || k == i - 1);
            }
        }
    }
    proof {
        assert(options@.take(options@.len() as int) =~= options@);
        assert(acknowledged@ =~= subst_tsize(options@, *work_type));
    }
    Ok(Negotiation { options: worker_options, acknowledged })
}

/// The initial reply owed after negotiation: an option acknowledgment when
/// any option was requested, a bare acknowledgment of block zero when
/// receiving without options, and nothing when sending without options.
pub open spec fn accept_reply_of(acknowledged: Seq<TransferOption>, wt: WorkType) -> Option<
    PacketModel,
> {
    if acknowledged.len() > 0 {
        Some(PacketModel::Oack(acknowledged))
    } else if wt is Receive {
        Some(PacketModel::Ack(0))
    } else {
        None
    }
}

/// Copies an option list.
fn copy_options(options: &Vec<TransferOption>) -> (r: Vec<TransferOption>)
    ensures
        r@ == options@,
{
    let mut r: Vec<TransferOption> = Vec::new();
    let mut i: usize = 0;
    while i < options.len()
        invariant
            i <= options.len(),
            r@ == options@.take(i as int),
        decreases options.len() - i,
    {
        r.push(options[i]);
        i += 1;
        assert(r@ =~= options@.take(i as int));
    }
    assert(r@ =~= options@);
    r
}

/// Forms the initial handshake reply from the acknowledged option list.
pub fn accept_request(acknowledged: &Vec<TransferOption>, work_type: &WorkType) -> (r: Option<
    Packet,
>)
    ensures
        match r {
            Some(p) => accept_reply_of(acknowledged@, *work_type) == Some(p@),
            None => accept_reply_of(acknowledged@, *work_type) is None,
        },
{
    if acknowledged.len() > 0 {
        Some(Packet::Oack(copy_options(acknowledged)))
    } else {
        match work_type {
            WorkType::Receive => Some(Packet::Ack(0)),
            WorkType::Send(_) => None,
        }
    }
}

/// A worker: the decision core of one transfer.
pub struct Worker;

/// The outcome of preparing one transfer: the negotiated parameters and the
/// initial packet owed to the peer, if any.
#[derive(Debug)]
pub struct Handshake {
    pub options: WorkerOptions,
    pub reply: Option<Packet>,
}

impl Worker {
    /// Negotiates the requested options and forms the initial handshake
    /// reply. Negotiation completes first, so an option acknowledgment
    /// always reflects the negotiated values; when negotiation fails no
    /// reply exists at all and nothing reaches the network.
    pub fn prepare(options: &Vec<TransferOption>, work_type: &WorkType) -> (r: Result<
        Handshake,
        NegotiationError,
    >)
        requires
            (*work_type) matches WorkType::Send(size) ==> size <= usize::MAX as u64,
        ensures
            match r {
                Ok(h) => !timeout_rejected(options@) && h.options == params_of(
                    options@,
                    *work_type,
                ) && (match h.reply {
                    Some(p) => accept_reply_of(subst_tsize(options@, *work_type), *work_type)
                        == Some(p@),
                    None => accept_reply_of(subst_tsize(options@, *work_type), *work_type) is None,
                }),
                Err(e) => timeout_rejected(options@) && e == NegotiationError::InvalidOption,
            },
    {
        match parse_options(options, work_type) {
            Ok(negotiation) => {
                let reply = accept_request(&negotiation.acknowledged, work_type);
                Ok(Handshake { options: negotiation.options, reply })
            },
            Err(e) => Err(e),
        }
    }
}

/// The text of the error sent on a malformed negotiation response.
pub open spec fn invalid_oack_msg() -> Seq<u8> {
    seq![
        105u8,
        110u8,
        118u8,
        97u8,
        108u8,
        105u8,
        100u8,
        32u8,
        111u8,
        97u8,
        99u8,
        107u8,
        32u8,
        114u8,
        101u8,
        115u8,
        112u8,
        111u8,
        110u8,
        115u8,
        101u8,
    ]
}

fn invalid_oack_msg_exec() -> (r: Vec<u8>)
    ensures
        r@ == invalid_oack_msg(),
{
    let mut r: Vec<u8> = Vec::new();
    r.push(105);
    r.push(110);
    r.push(118);
    r.push(97);
    r.push(108);
    r.push(105);
    r.push(100);
    r.push(32);
    r.push(111);
    r.push(97);
    r.push(99);
    r.push(107);
    r.push(32);
    r.push(114);
    r.push(101);
    r.push(115);
    r.push(112);
    r.push(111);
    r.push(110);
    r.push(115);
    r.push(101);
    assert(r@ =~= invalid_oack_msg());
    r
}

/// The verdict on the peer's reply to an option acknowledgment.
#[derive(Debug)]
pub enum Confirmation {
    /// The reply is acceptable; the transfer goes on.
    Proceed,
    /// The reply acknowledged a block other than zero: the carried error
    /// packet is to be sent, and the transfer aborts.
    Reject(Packet),
    /// The peer reported an error: the transfer aborts at once.
    PeerError(ErrorCode, Vec<u8>),
}

/// Examines the packet received in reply to an option acknowledgment. An
/// acknowledgment must name block zero; any other block number is a
/// negotiation violation, answered with an IllegalOperation error. A peer
/// error aborts the transfer. Anything else is tolerated.
pub fn check_response(response: &Option<Packet>) -> (r: Confirmation)
    ensures
        match *response {
            Some(Packet::Ack(n)) => if n == 0 {
                r is Proceed
            } else {
                r matches Confirmation::Reject(p) && p@ == (PacketModel::Error {
                    code: ErrorCode::IllegalOperation,
                    msg: invalid_oack_msg(),
                })
            },
            Some(Packet::Error { code, msg }) => r matches Confirmation::PeerError(c, m) && c
                == code && m@ == msg@,
            _ => r is Proceed,
        },
{
    match response {
        Some(Packet::Ack(n)) => {
            if *n == 0 {
                Confirmation::Proceed
            } else {
                let msg = invalid_oack_msg_exec();
                Confirmation::Reject(Packet::Error { code: ErrorCode::IllegalOperation, msg })
            }
        },
        Some(Packet::Error { code, msg }) => {
            let m = copy_range(msg, 0, msg.len());
            assert(msg@.subrange(0, msg@.len() as int) =~= msg@);
            Confirmation::PeerError(*code, m)
        },
        _ => Confirmation::Proceed,
    }
}

/// Negotiation rejection: an option list that carries a Timeout option of
/// value zero is rejected by `parse_options` and `Worker::prepare`, whose
/// contracts then provide no parameters and no handshake reply — nothing
/// reaches the network.
pub proof fn lemma_zero_timeout_rejected(options: Seq<TransferOption>, i: int)
    requires
        0 <= i < options.len(),
        options[i].option is Timeout,
        options[i].value == 0,
    ensures
        timeout_rejected(options),
{
}

/// TransferSize correctness: in the option list a sender acknowledges, every
/// TransferSize entry carries the byte length of the file being sent at
/// negotiation time, and every other entry is acknowledged unchanged.
pub proof fn lemma_transfer_size_substituted(options: Seq<TransferOption>, size: u64, i: int)
    requires
        0 <= i < options.len(),
    ensures
        subst_tsize(options, WorkType::Send(size)).len() == options.len(),
        options[i].option is TransferSize ==> subst_tsize(options, WorkType::Send(size))[i]
            == (TransferOption { option: OptionType::TransferSize, value: size as usize }),
        !(options[i].option is TransferSize) ==> subst_tsize(options, WorkType::Send(size))[i]
            == options[i],
{
}

} // verus!
