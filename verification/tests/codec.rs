use tftp::packet::ErrorCode;
use tftp::packet::OptionType;
use tftp::packet::Packet;
use tftp::packet::PacketError;
use tftp::packet::TransferOption;
use tftp::packet::decode;
use tftp::packet::encode;

fn round_trips(p: Packet) -> Packet {
    let bytes = encode(&p);
    decode(&bytes).expect("encoding must decode")
}

#[test]
fn round_trip_data() {
    let p = Packet::Data {
        block_num: 7,
        data: vec![1, 2, 3, 4, 5],
    };
    match round_trips(p) {
        Packet::Data { block_num, data } => {
            assert_eq!(block_num, 7);
            assert_eq!(data, vec![1, 2, 3, 4, 5]);
        }
        _ => panic!("expected a data packet"),
    }
}

#[test]
fn round_trip_data_empty() {
    let p = Packet::Data {
        block_num: 65535,
        data: vec![],
    };
    match round_trips(p) {
        Packet::Data { block_num, data } => {
            assert_eq!(block_num, 65535);
            assert!(data.is_empty());
        }
        _ => panic!("expected a data packet"),
    }
}

#[test]
fn round_trip_ack() {
    match round_trips(Packet::Ack(513)) {
        Packet::Ack(n) => assert_eq!(n, 513),
        _ => panic!("expected an acknowledgment"),
    }
}

#[test]
fn round_trip_error() {
    let p = Packet::Error {
        code: ErrorCode::FileNotFound,
        msg: b"file not found".to_vec(),
    };
    match round_trips(p) {
        Packet::Error { code, msg } => {
            assert_eq!(code, ErrorCode::FileNotFound);
            assert_eq!(msg, b"file not found".to_vec());
        }
        _ => panic!("expected an error packet"),
    }
}

#[test]
fn round_trip_error_empty_message() {
    let p = Packet::Error {
        code: ErrorCode::OptionNegotiationFailed,
        msg: vec![],
    };
    match round_trips(p) {
        Packet::Error { code, msg } => {
            assert_eq!(code, ErrorCode::OptionNegotiationFailed);
            assert!(msg.is_empty());
        }
        _ => panic!("expected an error packet"),
    }
}

#[test]
fn round_trip_every_error_code() {
    let codes = [
        ErrorCode::Undefined,
        ErrorCode::FileNotFound,
        ErrorCode::AccessViolation,
        ErrorCode::DiskFull,
        ErrorCode::IllegalOperation,
        ErrorCode::UnknownTransferId,
        ErrorCode::FileAlreadyExists,
        ErrorCode::NoSuchUser,
        ErrorCode::OptionNegotiationFailed,
    ];
    for code in codes {
        let p = Packet::Error {
            code,
            msg: b"x".to_vec(),
        };
        match round_trips(p) {
            Packet::Error { code: c, .. } => assert_eq!(c, code),
            _ => panic!("expected an error packet"),
        }
    }
}

#[test]
fn round_trip_oack() {
    let options = vec![
        TransferOption {
            option: OptionType::BlockSize,
            value: 1432,
        },
        TransferOption {
            option: OptionType::TransferSize,
            value: 0,
        },
        TransferOption {
            option: OptionType::Timeout,
            value: 8,
        },
    ];
    let p = Packet::Oack(options.clone());
    match round_trips(p) {
        Packet::Oack(decoded) => assert_eq!(decoded, options),
        _ => panic!("expected an option acknowledgment"),
    }
}

#[test]
fn round_trip_oack_empty() {
    match round_trips(Packet::Oack(vec![])) {
        Packet::Oack(decoded) => assert!(decoded.is_empty()),
        _ => panic!("expected an option acknowledgment"),
    }
}

#[test]
fn round_trip_oack_large_value() {
    let options = vec![TransferOption {
        option: OptionType::TransferSize,
        value: usize::MAX,
    }];
    let p = Packet::Oack(options.clone());
    match round_trips(p) {
        Packet::Oack(decoded) => assert_eq!(decoded, options),
        _ => panic!("expected an option acknowledgment"),
    }
}

#[test]
fn encode_ack_exact_bytes() {
    assert_eq!(encode(&Packet::Ack(0)), vec![0, 4, 0, 0]);
    assert_eq!(encode(&Packet::Ack(258)), vec![0, 4, 1, 2]);
}

#[test]
fn encode_data_exact_bytes() {
    let p = Packet::Data {
        block_num: 1,
        data: vec![9, 8],
    };
    assert_eq!(encode(&p), vec![0, 3, 0, 1, 9, 8]);
}

#[test]
fn encode_error_exact_bytes() {
    let p = Packet::Error {
        code: ErrorCode::IllegalOperation,
        msg: b"no".to_vec(),
    };
    assert_eq!(encode(&p), vec![0, 5, 0, 4, b'n', b'o', 0]);
}

#[test]
fn encode_oack_exact_bytes() {
    let p = Packet::Oack(vec![TransferOption {
        option: OptionType::BlockSize,
        value: 512,
    }]);
    let mut expected = vec![0, 6];
    expected.extend_from_slice(b"blksize\0512\0");
    assert_eq!(encode(&p), expected);
}

#[test]
fn decode_rejects_short_buffers() {
    assert!(matches!(decode(&vec![]), Err(PacketError::MalformedPacket)));
    assert!(matches!(decode(&vec![0]), Err(PacketError::MalformedPacket)));
    assert!(matches!(decode(&vec![0, 3, 0]), Err(PacketError::MalformedPacket)));
}

#[test]
fn decode_rejects_unknown_opcode() {
    assert!(matches!(decode(&vec![0, 9, 0, 1]), Err(PacketError::MalformedPacket)));
    assert!(matches!(decode(&vec![1, 4, 0, 1]), Err(PacketError::MalformedPacket)));
}

#[test]
fn decode_rejects_oversized_ack() {
    assert!(matches!(decode(&vec![0, 4, 0, 1, 0]), Err(PacketError::MalformedPacket)));
}

#[test]
fn decode_rejects_unterminated_error() {
    assert!(matches!(decode(&vec![0, 5, 0, 1, b'h', b'i']), Err(PacketError::MalformedPacket)));
}

#[test]
fn decode_rejects_error_with_embedded_zero() {
    assert!(matches!(decode(&vec![0, 5, 0, 1, b'h', 0, b'i', 0]), Err(PacketError::MalformedPacket)));
}

#[test]
fn decode_rejects_unknown_error_code() {
    assert!(matches!(decode(&vec![0, 5, 0, 9, b'h', 0]), Err(PacketError::MalformedPacket)));
}

#[test]
fn decode_rejects_nondecimal_option_value() {
    let mut bytes = vec![0, 6];
    bytes.extend_from_slice(b"blksize\0five\0");
    assert!(matches!(decode(&bytes), Err(PacketError::MalformedPacket)));
}

#[test]
fn decode_rejects_unterminated_option() {
    let mut bytes = vec![0, 6];
    bytes.extend_from_slice(b"blksize\0512");
    assert!(matches!(decode(&bytes), Err(PacketError::MalformedPacket)));
}

#[test]
fn decode_skips_unknown_option_names() {
    let mut bytes = vec![0, 6];
    bytes.extend_from_slice(b"windowsize\04\0blksize\01024\0");
    match decode(&bytes).expect("known pairs must decode") {
        Packet::Oack(options) => {
            assert_eq!(
                options,
                vec![TransferOption {
                    option: OptionType::BlockSize,
                    value: 1024,
                }]
            );
        }
        _ => panic!("expected an option acknowledgment"),
    }
}

#[test]
fn decode_accepts_leading_zero_value() {
    let mut bytes = vec![0, 6];
    bytes.extend_from_slice(b"timeout\0007\0");
    match decode(&bytes).expect("a padded decimal still decodes") {
        Packet::Oack(options) => {
            assert_eq!(
                options,
                vec![TransferOption {
                    option: OptionType::Timeout,
                    value: 7,
                }]
            );
        }
        _ => panic!("expected an option acknowledgment"),
    }
}

#[test]
fn decode_preserves_option_order() {
    let mut bytes = vec![0, 6];
    bytes.extend_from_slice(b"timeout\03\0blksize\08\0");
    match decode(&bytes).expect("both pairs are well formed") {
        Packet::Oack(options) => {
            assert_eq!(options.len(), 2);
            assert_eq!(options[0].option, OptionType::Timeout);
            assert_eq!(options[0].value, 3);
            assert_eq!(options[1].option, OptionType::BlockSize);
            assert_eq!(options[1].value, 8);
        }
        _ => panic!("expected an option acknowledgment"),
    }
}

#[test]
fn decode_data_takes_rest_of_buffer() {
    match decode(&vec![0, 3, 1, 0, 42]).expect("a short data packet decodes") {
        Packet::Data { block_num, data } => {
            assert_eq!(block_num, 256);
            assert_eq!(data, vec![42]);
        }
        _ => panic!("expected a data packet"),
    }
}
