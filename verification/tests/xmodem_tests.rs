use loadstone::xmodem::{parse_message, Action, ByteOutcome, Message, Receiver, ACK, EOT, NAK, SOH};

fn packet(block: u8, fill: u8) -> Vec<u8> {
    let payload = vec![fill; 128];
    let checksum = payload.iter().fold(0u8, |a, b| a.wrapping_add(*b));
    let mut p = vec![SOH, block, 255 - block];
    p.extend(payload);
    p.push(checksum);
    p
}

#[test]
fn packets_parse() {
    let p = packet(1, 0xAB);
    match parse_message(&p) {
        Some(Message::Chunk { block_number, payload }) => {
            assert_eq!(block_number, 1);
            assert_eq!(payload, [0xAB; 128]);
        }
        _ => panic!("expected a chunk"),
    }
    assert_eq!(parse_message(&[EOT]), Some(Message::EndOfTransmission));
    let mut bad = packet(1, 0xAB);
    bad[131] ^= 1;
    assert_eq!(parse_message(&bad), None);
    let mut bad = packet(1, 0xAB);
    bad[2] = 0;
    assert_eq!(parse_message(&bad), None);
}

fn feed(receiver: &mut Receiver, bytes: &[u8]) -> ByteOutcome {
    let mut outcome = ByteOutcome::Continue;
    for b in bytes {
        outcome = receiver.on_byte(Some(*b));
        if outcome != ByteOutcome::Continue {
            break;
        }
    }
    outcome
}

#[test]
fn receiving_two_blocks_then_end_of_transmission() {
    let mut receiver = Receiver::new();
    assert_eq!(receiver.next_action(), Action::Send(NAK));
    receiver.on_sent(true);
    assert_eq!(feed(&mut receiver, &packet(1, 7)), ByteOutcome::Block([7; 128]));
    assert_eq!(receiver.next_action(), Action::Send(ACK));
    receiver.on_sent(true);
    assert_eq!(feed(&mut receiver, &packet(2, 9)), ByteOutcome::Block([9; 128]));
    assert_eq!(receiver.next_action(), Action::Send(ACK));
    receiver.on_sent(true);
    assert_eq!(feed(&mut receiver, &[EOT]), ByteOutcome::EndOfTransmission);
    assert_eq!(receiver.next_action(), Action::Done);
}

#[test]
fn a_repeated_block_is_not_handed_out_twice() {
    let mut receiver = Receiver::new();
    receiver.next_action();
    receiver.on_sent(true);
    assert_eq!(feed(&mut receiver, &packet(1, 7)), ByteOutcome::Block([7; 128]));
    receiver.next_action();
    receiver.on_sent(true);
    assert_eq!(feed(&mut receiver, &packet(1, 7)), ByteOutcome::Restart);
}

#[test]
fn timeouts_exhaust_the_retries() {
    let mut receiver = Receiver::new();
    for _ in 0..10 {
        assert_eq!(receiver.next_action(), Action::Send(NAK));
        receiver.on_sent(true);
        assert_eq!(receiver.on_byte(None), ByteOutcome::Restart);
    }
    assert_eq!(receiver.next_action(), Action::Done);
}

#[test]
fn each_block_gets_its_own_retries() {
    let mut receiver = Receiver::new();
    for _ in 0..9 {
        assert_eq!(receiver.next_action(), Action::Send(NAK));
        receiver.on_sent(true);
        assert_eq!(receiver.on_byte(None), ByteOutcome::Restart);
    }
    assert_eq!(receiver.next_action(), Action::Send(NAK));
    receiver.on_sent(true);
    assert_eq!(feed(&mut receiver, &packet(1, 3)), ByteOutcome::Block([3; 128]));
    for _ in 0..9 {
        assert!(matches!(receiver.next_action(), Action::Send(_)));
        receiver.on_sent(true);
        assert_eq!(receiver.on_byte(None), ByteOutcome::Restart);
    }
    assert!(matches!(receiver.next_action(), Action::Send(_)));
    receiver.on_sent(true);
    assert_eq!(feed(&mut receiver, &packet(2, 4)), ByteOutcome::Block([4; 128]));
}

#[test]
fn a_finished_receiver_asks_for_nothing_more() {
    let mut receiver = Receiver::new();
    receiver.next_action();
    receiver.on_sent(true);
    assert_eq!(feed(&mut receiver, &[EOT]), ByteOutcome::EndOfTransmission);
    for _ in 0..3 {
        assert_eq!(receiver.next_action(), Action::Done);
    }
}
