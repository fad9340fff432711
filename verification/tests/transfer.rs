use tftp::packet::ErrorCode;
use tftp::packet::Packet;
use tftp::receiver::RecvStep;
use tftp::receiver::Receiver;
use tftp::sender::SendStep;
use tftp::sender::Sender;

fn data_of(p: &Packet) -> (u16, Vec<u8>) {
    match p {
        Packet::Data { block_num, data } => (*block_num, data.clone()),
        _ => panic!("expected a data packet"),
    }
}

fn ack_of(p: &Packet) -> u16 {
    match p {
        Packet::Ack(n) => *n,
        _ => panic!("expected an acknowledgment"),
    }
}

/// Drives a sender over a lossless peer and returns the payload length of
/// every transmitted data packet.
fn send_all(contents: Vec<u8>, blk_size: usize) -> Vec<usize> {
    let mut sender = Sender::new(contents, blk_size);
    let mut lengths = Vec::new();
    loop {
        let (block, data) = data_of(&sender.current_data());
        lengths.push(data.len());
        let step = sender.on_response(&Some(Packet::Ack(block)));
        match step {
            SendStep::Advance => {}
            SendStep::Finished => return lengths,
            _ => panic!("a matching acknowledgment must advance the transfer"),
        }
    }
}

#[test]
fn send_1500_bytes_in_three_blocks() {
    let lengths = send_all(vec![7; 1500], 512);
    assert_eq!(lengths, vec![512, 512, 476]);
}

#[test]
fn send_1024_bytes_ends_with_empty_block() {
    let lengths = send_all(vec![7; 1024], 512);
    assert_eq!(lengths, vec![512, 512, 0]);
}

#[test]
fn send_empty_file_is_one_empty_block() {
    let lengths = send_all(vec![], 512);
    assert_eq!(lengths, vec![0]);
}

#[test]
fn sender_numbers_blocks_from_one() {
    let mut sender = Sender::new(vec![7; 1500], 512);
    let mut blocks = Vec::new();
    loop {
        let (block, _) = data_of(&sender.current_data());
        blocks.push(block);
        match sender.on_response(&Some(Packet::Ack(block))) {
            SendStep::Advance => {}
            SendStep::Finished => break,
            _ => panic!("a matching acknowledgment must advance the transfer"),
        }
    }
    assert_eq!(blocks, vec![1, 2, 3]);
}

#[test]
fn sender_resends_same_block_after_silence() {
    let mut sender = Sender::new(vec![7; 1500], 512);
    let (block_before, data_before) = data_of(&sender.current_data());
    assert!(matches!(sender.on_response(&None), SendStep::Resend));
    let (block_after, data_after) = data_of(&sender.current_data());
    assert_eq!(block_before, block_after);
    assert_eq!(data_before, data_after);
}

#[test]
fn sender_gives_up_after_six_attempts() {
    let mut sender = Sender::new(vec![7; 100], 512);
    // the first transmission plus five retransmissions are tolerated
    for _ in 0..5 {
        assert!(matches!(sender.on_response(&None), SendStep::Resend));
    }
    // the sixth failed attempt ends the transfer: there is no seventh
    assert!(matches!(sender.on_response(&None), SendStep::TimedOut));
    assert!(!sender.is_running());
}

#[test]
fn sender_counts_mismatched_acknowledgments() {
    let mut sender = Sender::new(vec![7; 100], 512);
    for _ in 0..5 {
        assert!(matches!(
            sender.on_response(&Some(Packet::Ack(9))),
            SendStep::Resend
        ));
    }
    assert!(matches!(
        sender.on_response(&Some(Packet::Ack(9))),
        SendStep::TimedOut
    ));
}

#[test]
fn sender_aborts_on_peer_error_without_retrying() {
    let mut sender = Sender::new(vec![7; 100], 512);
    let response = Some(Packet::Error {
        code: ErrorCode::FileNotFound,
        msg: b"file not found".to_vec(),
    });
    match sender.on_response(&response) {
        SendStep::PeerError(code, msg) => {
            assert_eq!(code, ErrorCode::FileNotFound);
            assert_eq!(msg, b"file not found".to_vec());
        }
        _ => panic!("a peer error must abort at once"),
    }
    assert!(!sender.is_running());
}

#[test]
fn sender_wraps_block_numbers_after_65535() {
    // one byte per block: far more than 65536 blocks, so the number wraps
    let mut sender = Sender::new(vec![7; 70000], 1);
    let mut wrapped = false;
    let mut previous = 0u16;
    loop {
        let (block, _) = data_of(&sender.current_data());
        if previous == 65535 {
            assert_eq!(block, 0, "the successor of 65535 is 0");
            wrapped = true;
        }
        previous = block;
        match sender.on_response(&Some(Packet::Ack(block))) {
            SendStep::Advance => {}
            SendStep::Finished => break,
            _ => panic!("a matching acknowledgment must advance the transfer"),
        }
    }
    assert!(wrapped, "the transfer must pass block 65535");
}

#[test]
fn receiver_accepts_blocks_in_order() {
    let mut receiver = Receiver::new(4);
    let mut file = Vec::new();
    let chunks: Vec<Vec<u8>> = vec![vec![1, 2, 3, 4], vec![5, 6, 7, 8], vec![9]];
    for (i, chunk) in chunks.iter().enumerate() {
        let packet = Some(Packet::Data {
            block_num: (i + 1) as u16,
            data: chunk.clone(),
        });
        match receiver.on_packet(&packet) {
            RecvStep::Accepted(payload) => {
                assert_eq!(&payload, chunk);
                file.extend_from_slice(&payload);
            }
            _ => panic!("the expected block must be accepted"),
        }
        assert_eq!(ack_of(&receiver.ack_packet()), (i + 1) as u16);
    }
    assert_eq!(file, vec![1, 2, 3, 4, 5, 6, 7, 8, 9]);
    assert!(!receiver.is_running());
}

#[test]
fn receiver_finishes_on_short_block() {
    let mut receiver = Receiver::new(4);
    let packet = Some(Packet::Data {
        block_num: 1,
        data: vec![1, 2],
    });
    assert!(matches!(receiver.on_packet(&packet), RecvStep::Accepted(_)));
    assert!(!receiver.is_running());
}

#[test]
fn receiver_stays_running_on_full_block() {
    let mut receiver = Receiver::new(4);
    let packet = Some(Packet::Data {
        block_num: 1,
        data: vec![1, 2, 3, 4],
    });
    assert!(matches!(receiver.on_packet(&packet), RecvStep::Accepted(_)));
    assert!(receiver.is_running());
}

#[test]
fn receiver_retries_out_of_order_block() {
    let mut receiver = Receiver::new(4);
    let packet = Some(Packet::Data {
        block_num: 2,
        data: vec![1, 2, 3, 4],
    });
    assert!(matches!(receiver.on_packet(&packet), RecvStep::Retry));
    // the expected block is still accepted afterwards
    let expected = Some(Packet::Data {
        block_num: 1,
        data: vec![1, 2, 3, 4],
    });
    assert!(matches!(receiver.on_packet(&expected), RecvStep::Accepted(_)));
}

#[test]
fn receiver_retries_duplicate_block() {
    let mut receiver = Receiver::new(4);
    let first = Some(Packet::Data {
        block_num: 1,
        data: vec![1, 2, 3, 4],
    });
    assert!(matches!(receiver.on_packet(&first), RecvStep::Accepted(_)));
    // the same block again is not accepted twice
    assert!(matches!(receiver.on_packet(&first), RecvStep::Retry));
}

#[test]
fn receiver_rejects_oversized_block() {
    let mut receiver = Receiver::new(4);
    let packet = Some(Packet::Data {
        block_num: 1,
        data: vec![1, 2, 3, 4, 5],
    });
    assert!(matches!(receiver.on_packet(&packet), RecvStep::Retry));
}

#[test]
fn receiver_gives_up_after_six_attempts() {
    let mut receiver = Receiver::new(4);
    for _ in 0..5 {
        assert!(matches!(receiver.on_packet(&None), RecvStep::Retry));
    }
    assert!(matches!(receiver.on_packet(&None), RecvStep::TimedOut));
    assert!(!receiver.is_running());
}

#[test]
fn receiver_aborts_on_peer_error_without_retrying() {
    let mut receiver = Receiver::new(4);
    let response = Some(Packet::Error {
        code: ErrorCode::FileNotFound,
        msg: b"file not found".to_vec(),
    });
    match receiver.on_packet(&response) {
        RecvStep::PeerError(code, msg) => {
            assert_eq!(code, ErrorCode::FileNotFound);
            assert_eq!(msg, b"file not found".to_vec());
        }
        _ => panic!("a peer error must abort at once"),
    }
    assert!(!receiver.is_running());
}

#[test]
fn receiver_accepts_zero_after_65535() {
    let mut receiver = Receiver::new(1);
    for i in 1..=65536u32 {
        let wire = (i % 65536) as u16;
        let packet = Some(Packet::Data {
            block_num: wire,
            data: vec![7],
        });
        match receiver.on_packet(&packet) {
            RecvStep::Accepted(_) => {}
            _ => panic!("in-order blocks must be accepted, wire number {wire}"),
        }
        assert_eq!(ack_of(&receiver.ack_packet()), wire);
    }
    // block 65536 carried wire number 0 and was accepted as the successor
    assert!(receiver.is_running());
}
