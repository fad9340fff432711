//! Wire codec for the protocol's packets.
//!
//! A packet is encoded as a two-byte big-endian opcode followed by the
//! variant's fields: data and acknowledgment packets carry a two-byte
//! big-endian block number, an error packet carries a two-byte error code
//! and a zero-terminated message, and an option acknowledgment carries a
//! sequence of zero-terminated option name / decimal value pairs.
//!
//! `encode` and `decode` are proved against the spec-level functions
//! `encode_spec` and `decode_spec`, and `lemma_codec_round_trip` shows the
//! two spec functions to be inverses on well-formed packets.
use vstd::prelude::*;

verus! {

/// Protocol error codes carried by error packets.
#[derive(Clone, Copy, PartialEq, Eq, Structural, Debug)]
pub enum ErrorCode {
    Undefined,
    FileNotFound,
    AccessViolation,
    DiskFull,
    IllegalOperation,
    UnknownTransferId,
    FileAlreadyExists,
    NoSuchUser,
    OptionNegotiationFailed,
}

/// The transfer options either endpoint may propose.
#[derive(Clone, Copy, PartialEq, Eq, Structural, Debug)]
pub enum OptionType {
    BlockSize,
    TransferSize,
    Timeout,
}

/// One proposed option: a kind and its non-negative value.
#[derive(Clone, Copy, PartialEq, Eq, Structural, Debug)]
#[verifier::ext_equal]
pub struct TransferOption {
    pub option: OptionType,
    pub value: usize,
}

/// A wire-level message of the transfer phase.
#[derive(Debug)]
pub enum Packet {
    Data { block_num: u16, data: Vec<u8> },
    Ack(u16),
    Error { code: ErrorCode, msg: Vec<u8> },
    Oack(Vec<TransferOption>),
}

/// Decoding failure: the buffer is not a recognizable packet.
#[derive(Clone, Copy, PartialEq, Eq, Structural, Debug)]
pub enum PacketError {
    MalformedPacket,
}

/// The mathematical value of a packet: byte vectors become sequences.
pub enum PacketModel {
    Data { block_num: u16, data: Seq<u8> },
    Ack(u16),
    Error { code: ErrorCode, msg: Seq<u8> },
    Oack(Seq<TransferOption>),
}

impl View for Packet {
    type V = PacketModel;

    open spec fn view(&self) -> PacketModel {
        match self {
            Packet::Data { block_num, data } => PacketModel::Data {
                block_num: *block_num,
                data: data@,
            },
            Packet::Ack(n) => PacketModel::Ack(*n),
            Packet::Error { code, msg } => PacketModel::Error { code: *code, msg: msg@ },
            Packet::Oack(options) => PacketModel::Oack(options@),
        }
    }
}

impl PacketModel {
    /// A packet that the codec can reproduce exactly: an error message must
    /// not contain the zero byte that terminates it on the wire.
    pub open spec fn wf(self) -> bool {
        match self {
            PacketModel::Error { code: _, msg } => forall|i: int|
                0 <= i < msg.len() ==> msg[i] != 0,
            _ => true,
        }
    }
}

/// The numeric value of an error code, as fixed by the protocol.
pub open spec fn code_num(c: ErrorCode) -> u16 {
    match c {
        ErrorCode::Undefined => 0,
        ErrorCode::FileNotFound => 1,
        ErrorCode::AccessViolation => 2,
        ErrorCode::DiskFull => 3,
        ErrorCode::IllegalOperation => 4,
        ErrorCode::UnknownTransferId => 5,
        ErrorCode::FileAlreadyExists => 6,
        ErrorCode::NoSuchUser => 7,
        ErrorCode::OptionNegotiationFailed => 8,
    }
}

/// The error code denoted by a numeric value, if any.
pub open spec fn code_of(n: u16) -> Option<ErrorCode> {
    if n == 0 {
        Some(ErrorCode::Undefined)
    } else if n == 1 {
        Some(ErrorCode::FileNotFound)
    } else if n == 2 {
        Some(ErrorCode::AccessViolation)
    } else if n == 3 {
        Some(ErrorCode::DiskFull)
    } else if n == 4 {
        Some(ErrorCode::IllegalOperation)
    } else if n == 5 {
        Some(ErrorCode::UnknownTransferId)
    } else if n == 6 {
        Some(ErrorCode::FileAlreadyExists)
    } else if n == 7 {
        Some(ErrorCode::NoSuchUser)
    } else if n == 8 {
        Some(ErrorCode::OptionNegotiationFailed)
    } else {
        None
    }
}

/// The high byte of a 16-bit value in big-endian order.
pub open spec fn be_hi(x: u16) -> u8 {
    (x / 256) as u8
}

/// The low byte of a 16-bit value in big-endian order.
pub open spec fn be_lo(x: u16) -> u8 {
    (x % 256) as u8
}

/// The 16-bit value read from two bytes in big-endian order.
pub open spec fn be_val(hi: u8, lo: u8) -> u16 {
    (hi * 256 + lo) as u16
}

/// The wire name of an option kind.
pub open spec fn option_name(t: OptionType) -> Seq<u8> {
    match t {
        OptionType::BlockSize => seq![98u8, 108u8, 107u8, 115u8, 105u8, 122u8, 101u8],
        OptionType::TransferSize => seq![116u8, 115u8, 105u8, 122u8, 101u8],
        OptionType::Timeout => seq![116u8, 105u8, 109u8, 101u8, 111u8, 117u8, 116u8],
    }
}

/// The canonical decimal digits of `n`, most significant first.
pub open spec fn dec_digits(n: nat) -> Seq<u8>
    decreases n,
{
    if n < 10 {
        seq![(48 + n) as u8]
    } else {
        dec_digits(n / 10).push((48 + n % 10) as u8)
    }
}

/// The wire form of one option: its name and its decimal value, each
/// zero-terminated.
pub open spec fn encode_option(o: TransferOption) -> Seq<u8> {
    option_name(o.option) + seq![0u8] + dec_digits(o.value as nat) + seq![0u8]
}

/// The wire form of an option list: the options in order.
pub open spec fn encode_options(s: Seq<TransferOption>) -> Seq<u8>
    decreases s.len(),
{
    if s.len() == 0 {
        Seq::empty()
    } else {
        encode_option(s[0]) + encode_options(s.drop_first())
    }
}

/// The wire form of a packet.
pub open spec fn encode_spec(m: PacketModel) -> Seq<u8> {
    match m {
        PacketModel::Data { block_num, data } => seq![
            0u8,
            3u8,
            be_hi(block_num),
            be_lo(block_num),
        ] + data,
        PacketModel::Ack(n) => seq![0u8, 4u8, be_hi(n), be_lo(n)],
        PacketModel::Error { code, msg } => seq![
            0u8,
            5u8,
            be_hi(code_num(code)),
            be_lo(code_num(code)),
        ] + msg + seq![0u8],
        PacketModel::Oack(options) => seq![0u8, 6u8] + encode_options(options),
    }
}

/// Appends the decimal digits of `n` to `out`.
fn push_decimal(out: &mut Vec<u8>, n: usize)
    ensures
        final(out)@ == old(out)@ + dec_digits(n as nat),
    decreases n,
{
    if n >= 10 {
        push_decimal(out, n / 10);
    }
    out.push(48 + (n % 10) as u8);
    assert(out@ =~= old(out)@ + dec_digits(n as nat));
}

/// Appends the wire name of `t` to `out`.
fn push_option_name(out: &mut Vec<u8>, t: OptionType)
    ensures
        final(out)@ == old(out)@ + option_name(t),
{
    match t {
        OptionType::BlockSize => {
            out.push(98);
            out.push(108);
            out.push(107);
            out.push(115);
            out.push(105);
            out.push(122);
            out.push(101);
        },
        OptionType::TransferSize => {
            out.push(116);
            out.push(115);
            out.push(105);
            out.push(122);
            out.push(101);
        },
        OptionType::Timeout => {
            out.push(116);
            out.push(105);
            out.push(109);
            out.push(101);
            out.push(111);
            out.push(117);
            out.push(116);
        },
    }
    assert(out@ =~= old(out)@ + option_name(t));
}

/// `encode_options` consumes its argument one option at a time from the
/// front; this restates it as growth at the back, the shape an encoding
/// loop produces.
proof fn lemma_encode_options_push(s: Seq<TransferOption>, o: TransferOption)
    ensures
        encode_options(s.push(o)) == encode_options(s) + encode_option(o),
    decreases s.len(),
{
    if s.len() == 0 {
        assert(s.push(o).drop_first() =~= Seq::<TransferOption>::empty());
        assert(s.push(o)[0] == o);
        assert(encode_options(s.push(o)) == encode_option(o) + encode_options(
            s.push(o).drop_first(),
        ));
        assert(encode_options(s.push(o)) =~= encode_options(s) + encode_option(o));
    } else {
        assert(s.push(o).drop_first() =~= s.drop_first().push(o));
        lemma_encode_options_push(s.drop_first(), o);
        assert(s.push(o)[0] == s[0]);
        assert(encode_options(s.push(o)) == encode_option(s[0]) + encode_options(
            s.drop_first().push(o),
        ));
        assert(encode_options(s.push(o)) == encode_option(s[0]) + (encode_options(s.drop_first())
            + encode_option(o)));
        assert(encode_options(s) == encode_option(s[0]) + encode_options(s.drop_first()));
        assert(encode_options(s.push(o)) =~= encode_options(s) + encode_option(o));
    }
}

/// Encodes a packet to its wire form.
pub fn encode(p: &Packet) -> (r: Vec<u8>)
    ensures
        r@ == encode_spec(p@),
{
    let mut out: Vec<u8> = Vec::new();
    match p {
        Packet::Data { block_num, data } => {
            out.push(0);
            out.push(3);
            out.push((*block_num / 256) as u8);
            out.push((*block_num % 256) as u8);
            let mut i: usize = 0;
            while i < data.len()
                invariant
                    i <= data.len(),
                    out@ == seq![0u8, 3u8, be_hi(*block_num), be_lo(*block_num)] + data@.take(
                        i as int,
                    ),
                decreases data.len() - i,
            {
                out.push(data[i]);
                i += 1;
                assert(data@.take(i as int) =~= data@.take(i - 1).push(data@[i - 1]));
                assert(out@ =~= seq![0u8, 3u8, be_hi(*block_num), be_lo(*block_num)] + data@.take(
                    i as int,
                ));
            }
            assert(data@.take(data@.len() as int) =~= data@);
        },
        Packet::Ack(n) => {
            out.push(0);
            out.push(4);
            out.push((*n / 256) as u8);
            out.push((*n % 256) as u8);
            assert(out@ =~= encode_spec(p@));
        },
        Packet::Error { code, msg } => {
            let num = code_num_exec(*code);
            out.push(0);
            out.push(5);
            out.push((num / 256) as u8);
            out.push((num % 256) as u8);
            let mut i: usize = 0;
            while i < msg.len()
                invariant
                    i <= msg.len(),
                    out@ == seq![0u8, 5u8, be_hi(code_num(*code)), be_lo(code_num(*code))]
                        + msg@.take(i as int),
                decreases msg.len() - i,
            {
                out.push(msg[i]);
                i += 1;
                assert(msg@.take(i as int) =~= msg@.take(i - 1).push(msg@[i - 1]));
                assert(out@ =~= seq![0u8, 5u8, be_hi(code_num(*code)), be_lo(code_num(*code))]
                    + msg@.take(i as int));
            }
            out.push(0);
            assert(msg@.take(msg@.len() as int) =~= msg@);
            assert(out@ =~= encode_spec(p@));
        },
        Packet::Oack(options) => {
            out.push(0);
            out.push(6);
            let mut i: usize = 0;
            while i < options.len()
                invariant
                    i <= options.len(),
                    out@ == seq![0u8, 6u8] + encode_options(options@.take(i as int)),
                decreases options.len() - i,
            {
                let o = options[i];
                push_option_name(&mut out, o.option);
                out.push(0);
                push_decimal(&mut out, o.value);
                out.push(0);
                proof {
                    lemma_encode_options_push(options@.take(i as int), o);
                    assert(options@.take(i + 1) =~= options@.take(i as int).push(o));
                    assert(out@ =~= seq![0u8, 6u8] + encode_options(options@.take(i + 1)));
                }
                i += 1;
            }
            assert(options@.take(options@.len() as int) =~= options@);
        },
    }
    out
}

/// The bytes before the first zero byte and the bytes after it, if there is
/// a zero byte at all.
pub open spec fn split_at_zero(b: Seq<u8>) -> Option<(Seq<u8>, Seq<u8>)>
    decreases b.len(),
{
    if b.len() == 0 {
        None
    } else if b[0] == 0 {
        Some((Seq::empty(), b.drop_first()))
    } else {
        match split_at_zero(b.drop_first()) {
            None => None,
            Some(p) => Some((seq![b[0]] + p.0, p.1)),
        }
    }
}

proof fn lemma_split_at_zero_len(b: Seq<u8>)
    ensures
        split_at_zero(b) matches Some(p) ==> p.0.len() + 1 + p.1.len() == b.len(),
    decreases b.len(),
{
    if b.len() > 0 && b[0] != 0 {
        lemma_split_at_zero_len(b.drop_first());
    }
}

/// Where the first zero byte stands at index `k`, the split yields the bytes
/// before it and the bytes after it.
proof fn lemma_split_found(b: Seq<u8>, k: int)
    requires
        0 <= k < b.len(),
        b[k] == 0,
        forall|j: int| 0 <= j < k ==> b[j] != 0,
    ensures
        split_at_zero(b) == Some((b.take(k), b.skip(k + 1))),
    decreases k,
{
    if k == 0 {
        assert(b.take(0) =~= Seq::<u8>::empty());
        assert(b.skip(1) =~= b.drop_first());
    } else {
        assert(forall|j: int| 0 <= j < k - 1 ==> b.drop_first()[j] != 0);
        lemma_split_found(b.drop_first(), k - 1);
        assert(seq![b[0]] + b.drop_first().take(k - 1) =~= b.take(k));
        assert(b.drop_first().skip(k) =~= b.skip(k + 1));
    }
}

proof fn lemma_split_none(b: Seq<u8>)
    requires
        forall|j: int| 0 <= j < b.len() ==> b[j] != 0,
    ensures
        split_at_zero(b) is None,
    decreases b.len(),
{
    if b.len() > 0 {
        assert(forall|j: int| 0 <= j < b.len() - 1 ==> b.drop_first()[j] != 0);
        lemma_split_none(b.drop_first());
    }
}

/// Splitting a zero-terminated field off the front of a buffer recovers the
/// field, provided the field itself contains no zero byte.
proof fn lemma_split_encoded(name: Seq<u8>, rest: Seq<u8>)
    requires
        forall|j: int| 0 <= j < name.len() ==> name[j] != 0,
    ensures
        split_at_zero(name + seq![0u8] + rest) == Some((name, rest)),
{
    let b = name + seq![0u8] + rest;
    assert(b[name.len() as int] == 0);
    assert(forall|j: int| 0 <= j < name.len() ==> b[j] == name[j]);
    lemma_split_found(b, name.len() as int);
    assert(b.take(name.len() as int) =~= name);
    assert(b.skip(name.len() as int + 1) =~= rest);
}

/// Every byte of `s` is a decimal digit.
pub open spec fn all_digits(s: Seq<u8>) -> bool {
    forall|i: int| 0 <= i < s.len() ==> 48 <= #[trigger] s[i] <= 57
}

/// The numeric value of a sequence of decimal digits, most significant
/// first.
pub open spec fn dec_val(s: Seq<u8>) -> int
    decreases s.len(),
{
    if s.len() == 0 {
        0
    } else {
        dec_val(s.drop_last()) * 10 + s.last() - 48
    }
}

/// The value denoted by a decimal field: at least one byte, digits only,
/// and a value that fits the machine word.
pub open spec fn parse_dec(s: Seq<u8>) -> Option<usize> {
    if s.len() > 0 && all_digits(s) && 0 <= dec_val(s) <= usize::MAX {
        Some(dec_val(s) as usize)
    } else {
        None
    }
}

/// The option kind named by a wire name, if the name is recognized.
pub open spec fn name_type(s: Seq<u8>) -> Option<OptionType> {
    if s == option_name(OptionType::BlockSize) {
        Some(OptionType::BlockSize)
    } else if s == option_name(OptionType::TransferSize) {
        Some(OptionType::TransferSize)
    } else if s == option_name(OptionType::Timeout) {
        Some(OptionType::Timeout)
    } else {
        None
    }
}

/// The option list read from the body of an option acknowledgment: name and
/// value pairs, each zero-terminated, in order. Pairs whose name is not
/// recognized are ignored, for forward compatibility.
pub open spec fn decode_options(b: Seq<u8>) -> Option<Seq<TransferOption>>
    decreases b.len(),
    via decode_options_dec
{
    if b.len() == 0 {
        Some(Seq::empty())
    } else {
        match split_at_zero(b) {
            None => None,
            Some(p1) => match split_at_zero(p1.1) {
                None => None,
                Some(p2) => match decode_options(p2.1) {
                    None => None,
                    Some(tail) => match name_type(p1.0) {
                        Some(t) => match parse_dec(p2.0) {
                            Some(v) => Some(seq![TransferOption { option: t, value: v }] + tail),
                            None => None,
                        },
                        None => Some(tail),
                    },
                },
            },
        }
    }
}

#[via_fn]
proof fn decode_options_dec(b: Seq<u8>) {
    lemma_split_at_zero_len(b);
    if b.len() != 0 {
        match split_at_zero(b) {
            Some(p1) => {
                lemma_split_at_zero_len(p1.1);
            },
            None => {},
        }
    }
}

/// The packet denoted by a buffer, if it is a recognizable packet of the
/// transfer phase.
pub open spec fn decode_spec(b: Seq<u8>) -> Option<PacketModel> {
    if b.len() < 2 || b[0] != 0 {
        None
    } else if b[1] == 3 {
        if b.len() >= 4 {
            Some(PacketModel::Data { block_num: be_val(b[2], b[3]), data: b.skip(4) })
        } else {
            None
        }
    } else if b[1] == 4 {
        if b.len() == 4 {
            Some(PacketModel::Ack(be_val(b[2], b[3])))
        } else {
            None
        }
    } else if b[1] == 5 {
        if b.len() >= 5 && b[b.len() - 1] == 0 && (forall|i: int|
            4 <= i < b.len() - 1 ==> b[i] != 0) {
            match code_of(be_val(b[2], b[3])) {
                Some(code) => Some(
                    PacketModel::Error { code, msg: b.subrange(4, b.len() - 1) },
                ),
                None => None,
            }
        } else {
            None
        }
    } else if b[1] == 6 {
        match decode_options(b.skip(2)) {
            Some(options) => Some(PacketModel::Oack(options)),
            None => None,
        }
    } else {
        None
    }
}

proof fn lemma_dec_digits_wf(n: nat)
    ensures
        dec_digits(n).len() >= 1,
        all_digits(dec_digits(n)),
        forall|i: int| 0 <= i < dec_digits(n).len() ==> dec_digits(n)[i] != 0,
        dec_val(dec_digits(n)) == n,
    decreases n,
{
    if n < 10 {
        let s = dec_digits(n);
        assert(s =~= seq![(48 + n) as u8]);
        assert(s.last() == (48 + n) as u8);
        assert(s.drop_last() =~= Seq::<u8>::empty());
        assert(dec_val(s.drop_last()) == 0);
        assert(dec_val(s) == dec_val(s.drop_last()) * 10 + s.last() - 48);
        assert(dec_val(s) == n);
    } else {
        lemma_dec_digits_wf(n / 10);
        let d = dec_digits(n / 10);
        let s = d.push((48 + n % 10) as u8);
        assert(s.drop_last() =~= d);
        assert(dec_val(s) == dec_val(d) * 10 + (48 + n % 10) - 48);
        assert(dec_val(s) == (n / 10) * 10 + n % 10);
        assert((n / 10) * 10 + n % 10 == n) by {
            vstd::arithmetic::div_mod::lemma_fundamental_div_mod(n as int, 10);
        }
        assert(forall|i: int| 0 <= i < s.len() ==> 48 <= #[trigger] s[i] <= 57);
    }
}

proof fn lemma_option_name_nonzero(t: OptionType)
    ensures
        forall|j: int| 0 <= j < option_name(t).len() ==> option_name(t)[j] != 0,
{
    let s = option_name(t);
    assert forall|j: int| 0 <= j < s.len() implies s[j] != 0 by {
        match t {
            OptionType::BlockSize => {
                assert(s[0] != 0 && s[1] != 0 && s[2] != 0 && s[3] != 0 && s[4] != 0 && s[5] != 0
                    && s[6] != 0);
            },
            OptionType::TransferSize => {
                assert(s[0] != 0 && s[1] != 0 && s[2] != 0 && s[3] != 0 && s[4] != 0);
            },
            OptionType::Timeout => {
                assert(s[0] != 0 && s[1] != 0 && s[2] != 0 && s[3] != 0 && s[4] != 0 && s[5] != 0
                    && s[6] != 0);
            },
        }
    }
}

proof fn lemma_name_type_of(t: OptionType)
    ensures
        name_type(option_name(t)) == Some(t),
{
    assert(option_name(OptionType::BlockSize).len() == 7);
    assert(option_name(OptionType::TransferSize).len() == 5);
    assert(option_name(OptionType::Timeout).len() == 7);
    assert(option_name(OptionType::BlockSize)[0] == 98);
    assert(option_name(OptionType::Timeout)[0] == 116);
}

proof fn lemma_decode_options_round_trip(options: Seq<TransferOption>)
    ensures
        decode_options(encode_options(options)) == Some(options),
    decreases options.len(),
{
    if options.len() == 0 {
        assert(encode_options(options).len() == 0);
        assert(decode_options(encode_options(options)) == Some(Seq::<TransferOption>::empty()));
        assert(options =~= Seq::<TransferOption>::empty());
    } else {
        let o = options[0];
        let name = option_name(o.option);
        let digits = dec_digits(o.value as nat);
        let tail = encode_options(options.drop_first());
        let b = encode_options(options);
        lemma_dec_digits_wf(o.value as nat);
        lemma_option_name_nonzero(o.option);
        lemma_name_type_of(o.option);
        assert(b =~= name + seq![0u8] + (digits + seq![0u8] + tail));
        lemma_split_encoded(name, digits + seq![0u8] + tail);
        lemma_split_encoded(digits, tail);
        lemma_decode_options_round_trip(options.drop_first());
        assert(parse_dec(digits) == Some(o.value));
        assert(b.len() > 0);
        assert(decode_options(b) == Some(
            seq![TransferOption { option: o.option, value: o.value }] + options.drop_first(),
        ));
        assert(TransferOption { option: o.option, value: o.value } =~= o);
        assert(seq![o] + options.drop_first() =~= options);
    }
}

/// Codec round trip: decoding the encoding of any well-formed packet gives
/// the packet back, for every constructible packet value.
pub proof fn lemma_codec_round_trip(m: PacketModel)
    requires
        m.wf(),
    ensures
        decode_spec(encode_spec(m)) == Some(m),
{
    let b = encode_spec(m);
    match m {
        PacketModel::Data { block_num, data } => {
            assert(b.len() >= 4 && b[0] == 0 && b[1] == 3);
            assert(be_val(be_hi(block_num), be_lo(block_num)) == block_num);
            assert(b.skip(4) =~= data);
        },
        PacketModel::Ack(n) => {
            assert(b.len() == 4 && b[0] == 0 && b[1] == 4);
            assert(be_val(be_hi(n), be_lo(n)) == n);
        },
        PacketModel::Error { code, msg } => {
            assert(b.len() == 5 + msg.len() && b[0] == 0 && b[1] == 5);
            assert(b[b.len() - 1] == 0);
            assert(forall|i: int| 4 <= i < b.len() - 1 ==> b[i] == msg[i - 4]);
            assert(be_val(be_hi(code_num(code)), be_lo(code_num(code))) == code_num(code));
            assert(code_of(code_num(code)) == Some(code));
            assert(b.subrange(4, b.len() - 1) =~= msg);
        },
        PacketModel::Oack(options) => {
            assert(b.len() >= 2 && b[0] == 0 && b[1] == 6);
            assert(b.skip(2) =~= encode_options(options));
            lemma_decode_options_round_trip(options);
        },
    }
}

/// Copies the bytes of `b` between `start` and `end` into a fresh vector.
pub(crate) fn copy_range(b: &Vec<u8>, start: usize, end: usize) -> (r: Vec<u8>)
    requires
        start <= end <= b.len(),
    ensures
        r@ == b@.subrange(start as int, end as int),
{
    let mut r: Vec<u8> = Vec::new();
    let mut i: usize = start;
    while i < end
        invariant
            start <= i <= end <= b.len(),
            r@ == b@.subrange(start as int, i as int),
        decreases end - i,
    {
        r.push(b[i]);
        i += 1;
        assert(r@ =~= b@.subrange(start as int, i as int));
    }
    r
}

/// The index of the first zero byte at or after `from`, if any.
fn find_zero(b: &Vec<u8>, from: usize) -> (r: Option<usize>)
    requires
        from <= b.len(),
    ensures
        match r {
            Some(j) => from <= j < b.len() && b@[j as int] == 0 && (forall|k: int|
                from <= k < j ==> b@[k] != 0),
            None => forall|k: int| from <= k < b.len() ==> b@[k] != 0,
        },
{
    let mut i: usize = from;
    while i < b.len()
        invariant
            from <= i <= b.len(),
            forall|k: int| from <= k < i ==> b@[k] != 0,
        decreases b.len() - i,
    {
        if b[i] == 0 {
            return Some(i);
        }
        i += 1;
    }
    None
}

/// Whether the bytes of `b` between `start` and `end` are exactly `pat`.
fn bytes_match(b: &Vec<u8>, start: usize, end: usize, pat: &Vec<u8>) -> (r: bool)
    requires
        start <= end <= b.len(),
    ensures
        r == (b@.subrange(start as int, end as int) == pat@),
{
    if end - start != pat.len() {
        return false;
    }
    let mut i: usize = 0;
    while i < pat.len()
        invariant
            start <= end <= b.len(),
            end - start == pat.len(),
            i <= pat.len(),
            forall|k: int| 0 <= k < i ==> b@[start + k] == pat@[k],
        decreases pat.len() - i,
    {
        if b[start + i] != pat[i] {
            assert(b@.subrange(start as int, end as int)[i as int] != pat@[i as int]);
            return false;
        }
        i += 1;
    }
    assert(b@.subrange(start as int, end as int) =~= pat@);
    true
}

/// The wire name of an option kind, as a vector.
fn option_name_bytes(t: OptionType) -> (r: Vec<u8>)
    ensures
        r@ == option_name(t),
{
    let mut r: Vec<u8> = Vec::new();
    push_option_name(&mut r, t);
    assert(r@ =~= option_name(t));
    r
}

/// The option kind named by the bytes of `b` between `start` and `end`.
fn name_type_exec(b: &Vec<u8>, start: usize, end: usize) -> (r: Option<OptionType>)
    requires
        start <= end <= b.len(),
    ensures
        r == name_type(b@.subrange(start as int, end as int)),
{
    let blksize = option_name_bytes(OptionType::BlockSize);
    let tsize = option_name_bytes(OptionType::TransferSize);
    let timeout = option_name_bytes(OptionType::Timeout);
    if bytes_match(b, start, end, &blksize) {
        Some(OptionType::BlockSize)
    } else if bytes_match(b, start, end, &tsize) {
        Some(OptionType::TransferSize)
    } else if bytes_match(b, start, end, &timeout) {
        Some(OptionType::Timeout)
    } else {
        None
    }
}

proof fn lemma_dec_val_nonneg(s: Seq<u8>)
    requires
        all_digits(s),
    ensures
        dec_val(s) >= 0,
    decreases s.len(),
{
    if s.len() > 0 {
        assert(forall|i: int| 0 <= i < s.len() - 1 ==> 48 <= #[trigger] s.drop_last()[i] <= 57);
        lemma_dec_val_nonneg(s.drop_last());
    }
}

/// Appending digits at the back never lowers a decimal value.
proof fn lemma_dec_val_prefix(s: Seq<u8>, m: int)
    requires
        all_digits(s),
        0 <= m <= s.len(),
    ensures
        dec_val(s) >= dec_val(s.take(m)),
    decreases s.len() - m,
{
    if m < s.len() {
        lemma_dec_val_prefix(s, m + 1);
        assert(s.take(m + 1).drop_last() =~= s.take(m));
        assert(s.take(m + 1).last() == s[m]);
        assert(forall|i: int| 0 <= i < m ==> 48 <= #[trigger] s.take(m)[i] <= 57);
        lemma_dec_val_nonneg(s.take(m));
        assert(dec_val(s.take(m + 1)) == dec_val(s.take(m)) * 10 + s[m] - 48);
        assert(dec_val(s.take(m + 1)) >= dec_val(s.take(m)));
    } else {
        assert(s.take(m) =~= s);
    }
}

/// Reads the decimal value of the bytes of `b` between `start` and `end`.
fn parse_dec_exec(b: &Vec<u8>, start: usize, end: usize) -> (r: Option<usize>)
    requires
        start <= end <= b.len(),
    ensures
        r == parse_dec(b@.subrange(start as int, end as int)),
{
    let ghost s = b@.subrange(start as int, end as int);
    if start == end {
        return None;
    }
    let mut acc: usize = 0;
    let mut i: usize = start;
    while i < end
        invariant
            start <= i <= end <= b.len(),
            s == b@.subrange(start as int, end as int),
            forall|k: int| start <= k < i ==> 48 <= #[trigger] b@[k] <= 57,
            acc == dec_val(b@.subrange(start as int, i as int)),
        decreases end - i,
    {
        let c = b[i];
        if c < 48 || c > 57 {
            assert(s[i - start] == c);
            assert(!all_digits(s));
            return None;
        }
        let d = (c - 48) as usize;
        if acc > (usize::MAX - d) / 10 {
            proof {
                let pre = b@.subrange(start as int, i + 1);
                assert(pre.drop_last() =~= b@.subrange(start as int, i as int));
                assert(pre.last() == c);
                assert(dec_val(pre) == acc * 10 + d);
                assert(acc * 10 + d > usize::MAX);
                if all_digits(s) {
                    assert(s.take(i + 1 - start) =~= pre);
                    lemma_dec_val_prefix(s, i + 1 - start);
                    assert(dec_val(s) > usize::MAX);
                }
            }
            return None;
        }
        acc = acc * 10 + d;
        i += 1;
        proof {
            let pre = b@.subrange(start as int, i as int);
            assert(pre.drop_last() =~= b@.subrange(start as int, i - 1));
            assert(pre.last() == c);
        }
    }
    proof {
        assert(s =~= b@.subrange(start as int, end as int));
        assert(forall|k: int| 0 <= k < s.len() ==> 48 <= #[trigger] s[k] <= 57);
        assert(dec_val(s) == acc);
    }
    Some(acc)
}

/// Parses the option pairs of `b` from `from` on, appending them to `out`.
fn parse_opts(b: &Vec<u8>, from: usize, out: &mut Vec<TransferOption>) -> (ok: bool)
    requires
        from <= b.len(),
    ensures
        match decode_options(b@.skip(from as int)) {
            Some(options) => ok && final(out)@ == old(out)@ + options,
            None => !ok,
        },
    decreases b.len() - from,
{
    let ghost s = b@.skip(from as int);
    if from == b.len() {
        assert(s =~= Seq::<u8>::empty());
        assert(old(out)@ + Seq::<TransferOption>::empty() =~= old(out)@);
        return true;
    }
    let j = match find_zero(b, from) {
        Some(j) => j,
        None => {
            proof {
                assert(forall|k: int| 0 <= k < s.len() ==> s[k] == b@[from + k]);
                lemma_split_none(s);
            }
            return false;
        },
    };
    proof {
        assert(forall|k: int| 0 <= k < s.len() ==> s[k] == b@[from + k]);
        lemma_split_found(s, j - from);
        assert(s.take(j - from) =~= b@.subrange(from as int, j as int));
        assert(s.skip(j - from + 1) =~= b@.skip(j + 1));
    }
    let ghost rest1 = b@.skip(j + 1);
    let j2 = match find_zero(b, j + 1) {
        Some(j2) => j2,
        None => {
            proof {
                assert(forall|k: int| 0 <= k < rest1.len() ==> rest1[k] == b@[j + 1 + k]);
                lemma_split_none(rest1);
            }
            return false;
        },
    };
    proof {
        assert(forall|k: int| 0 <= k < rest1.len() ==> rest1[k] == b@[j + 1 + k]);
        lemma_split_found(rest1, j2 - (j + 1));
        assert(rest1.take(j2 - (j + 1)) =~= b@.subrange(j + 1, j2 as int));
        assert(rest1.skip(j2 - (j + 1) + 1) =~= b@.skip(j2 + 1));
    }
    let t_opt = name_type_exec(b, from, j);
    match t_opt {
        Some(t) => {
            match parse_dec_exec(b, j + 1, j2) {
                Some(v) => {
                    out.push(TransferOption { option: t, value: v });
                    let ghost mid = out@;
                    let ok = parse_opts(b, j2 + 1, out);
                    proof {
                        match decode_options(b@.skip(j2 + 1)) {
                            Some(tail) => {
                                assert(out@ == mid + tail);
                                assert(old(out)@ + (seq![TransferOption { option: t, value: v }]
                                    + tail) =~= mid + tail);
                            },
                            None => {},
                        }
                    }
                    ok
                },
                None => false,
            }
        },
        None => parse_opts(b, j2 + 1, out),
    }
}

/// The error code denoted by a numeric value, if any.
pub fn code_of_exec(n: u16) -> (r: Option<ErrorCode>)
    ensures
        r == code_of(n),
{
    if n == 0 {
        Some(ErrorCode::Undefined)
    } else if n == 1 {
        Some(ErrorCode::FileNotFound)
    } else if n == 2 {
        Some(ErrorCode::AccessViolation)
    } else if n == 3 {
        Some(ErrorCode::DiskFull)
    } else if n == 4 {
        Some(ErrorCode::IllegalOperation)
    } else if n == 5 {
        Some(ErrorCode::UnknownTransferId)
    } else if n == 6 {
        Some(ErrorCode::FileAlreadyExists)
    } else if n == 7 {
        Some(ErrorCode::NoSuchUser)
    } else if n == 8 {
        Some(ErrorCode::OptionNegotiationFailed)
    } else {
        None
    }
}

/// Decodes a buffer into the packet it denotes, or reports it malformed.
/// Never panics, whatever the buffer holds.
pub fn decode(b: &Vec<u8>) -> (r: Result<Packet, PacketError>)
    ensures
        match r {
            Ok(p) => decode_spec(b@) == Some(p@),
            Err(_) => decode_spec(b@) is None,
        },
{
    if b.len() < 2 {
        return Err(PacketError::MalformedPacket);
    }
    if b[0] != 0 {
        return Err(PacketError::MalformedPacket);
    }
    let op = b[1];
    if op == 3 {
        if b.len() < 4 {
            return Err(PacketError::MalformedPacket);
        }
        let block = (b[2] as u16) * 256 + (b[3] as u16);
        let data = copy_range(b, 4, b.len());
        assert(b@.subrange(4, b@.len() as int) =~= b@.skip(4));
        Ok(Packet::Data { block_num: block, data })
    } else if op == 4 {
        if b.len() != 4 {
            return Err(PacketError::MalformedPacket);
        }
        let block = (b[2] as u16) * 256 + (b[3] as u16);
        Ok(Packet::Ack(block))
    } else if op == 5 {
        if b.len() < 5 {
            return Err(PacketError::MalformedPacket);
        }
        if b[b.len() - 1] != 0 {
            return Err(PacketError::MalformedPacket);
        }
        let mut i: usize = 4;
        while i < b.len() - 1
            invariant
                4 <= i <= b.len() - 1,
                b.len() >= 5,
                b@[0] == 0,
                b@[1] == 5,
                b@[b@.len() - 1] == 0,
                forall|k: int| 4 <= k < i ==> b@[k] != 0,
            decreases b.len() - i,
        {
            if b[i] == 0 {
                return Err(PacketError::MalformedPacket);
            }
            i += 1;
        }
        let num = (b[2] as u16) * 256 + (b[3] as u16);
        match code_of_exec(num) {
            Some(code) => {
                let msg = copy_range(b, 4, b.len() - 1);
                Ok(Packet::Error { code, msg })
            },
            None => Err(PacketError::MalformedPacket),
        }
    } else if op == 6 {
        let mut options: Vec<TransferOption> = Vec::new();
        let ok = parse_opts(b, 2, &mut options);
        if ok {
            proof {
                match decode_options(b@.skip(2)) {
                    Some(opts) => {
                        assert(options@ =~= opts);
                    },
                    None => {},
                }
            }
            Ok(Packet::Oack(options))
        } else {
            Err(PacketError::MalformedPacket)
        }
    } else {
        Err(PacketError::MalformedPacket)
    }
}

/// The numeric value of an error code.
pub fn code_num_exec(c: ErrorCode) -> (r: u16)
    ensures
        r == code_num(c),
{
    match c {
        ErrorCode::Undefined => 0,
        ErrorCode::FileNotFound => 1,
        ErrorCode::AccessViolation => 2,
        ErrorCode::DiskFull => 3,
        ErrorCode::IllegalOperation => 4,
        ErrorCode::UnknownTransferId => 5,
        ErrorCode::FileAlreadyExists => 6,
        ErrorCode::NoSuchUser => 7,
        ErrorCode::OptionNegotiationFailed => 8,
    }
}

} // verus!
