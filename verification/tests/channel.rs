use alec::channel::{Channel, ChannelPair, LossyChannel, MemoryChannel};
use alec::error::{AlecError, ChannelError};
use alec::protocol::{EncodedMessage, MessageHeader, MessageType, Priority};
use std::time::Duration;

fn make_test_message(seq: u16) -> EncodedMessage {
    EncodedMessage::new(
        MessageHeader {
            version: 1,
            message_type: MessageType::Data,
            priority: Priority::P3Normal,
            sequence: seq,
            timestamp: 0,
            context_version: 0,
        },
        vec![0x00, 0x00, 0x42],
    )
}

/// How many of the 32768 draws a loss rate loses.
fn loss_threshold(loss_rate: f32) -> u32 {
    let rate = loss_rate.clamp(0.0, 1.0);
    (0..32768u32).filter(|k| (*k as f32 / 32767.0) < rate).count() as u32
}

fn lossy(loss_rate: f32) -> LossyChannel {
    let rate = loss_rate.clamp(0.0, 1.0);
    LossyChannel::with_loss(rate.to_bits(), loss_threshold(rate))
}

#[test]
fn test_memory_channel_send_receive() {
    let mut channel = MemoryChannel::new();

    let msg = make_test_message(1);
    channel.send(msg.clone()).unwrap();

    assert_eq!(channel.pending_outgoing(), 1);
    assert_eq!(channel.pending_incoming(), 0);

    let outgoing = channel.pop_outgoing().unwrap();
    channel.push_incoming(outgoing);

    assert_eq!(channel.pending_outgoing(), 0);
    assert_eq!(channel.pending_incoming(), 1);

    let received = channel.receive(Duration::from_secs(1)).unwrap();
    assert_eq!(received.header.sequence, 1);
}

#[test]
fn test_memory_channel_buffer_full() {
    let mut channel = MemoryChannel::with_buffer_size(2);

    channel.send(make_test_message(1)).unwrap();
    channel.send(make_test_message(2)).unwrap();

    let result = channel.send(make_test_message(3));
    assert!(result.is_err());
}

#[test]
fn test_memory_channel_closed() {
    let mut channel = MemoryChannel::new();
    channel.close();

    let result = channel.send(make_test_message(1));
    assert!(result.is_err());
}

#[test]
fn test_channel_pair() {
    let mut pair = ChannelPair::new();

    pair.emitter_to_receiver.send(make_test_message(1)).unwrap();
    pair.emitter_to_receiver.send(make_test_message(2)).unwrap();

    while let Some(msg) = pair.emitter_to_receiver.pop_outgoing() {
        pair.emitter_to_receiver.push_incoming(msg);
    }

    let msg1 = pair.emitter_to_receiver.receive(Duration::from_secs(1)).unwrap();
    let msg2 = pair.emitter_to_receiver.receive(Duration::from_secs(1)).unwrap();

    assert_eq!(msg1.header.sequence, 1);
    assert_eq!(msg2.header.sequence, 2);
}

#[test]
fn test_channel_metrics() {
    let mut channel = MemoryChannel::new();

    let msg = make_test_message(1);
    let msg_size = msg.len();
    channel.send(msg).unwrap();

    let metrics = channel.metrics();
    assert_eq!(metrics.bytes_sent, msg_size as u64);
    assert_eq!(metrics.messages_sent, 1);
}

#[test]
fn test_lossy_channel() {
    let mut channel = lossy(0.5);

    let mut sent = 0;
    for i in 0..100 {
        channel.send(make_test_message(i)).unwrap();
        sent += 1;
    }

    let mut received = 0;
    while channel.inner.pending_outgoing() > 0 {
        let msg = channel.inner.pop_outgoing().unwrap();
        channel.inner.push_incoming(msg);
        received += 1;
    }

    assert!(received < sent);
    assert!(received > 0);
}

#[test]
fn receive_errors_and_counts() {
    let mut channel = MemoryChannel::new();
    assert_eq!(
        channel.receive(Duration::from_millis(5)),
        Err(AlecError::Channel(ChannelError::Timeout { timeout_ms: 0 }))
    );
    channel.push_incoming(make_test_message(7));
    let m = channel.receive(Duration::from_millis(5)).unwrap();
    assert_eq!(m.header.sequence, 7);
    assert_eq!(channel.metrics().bytes_received, 13);
    assert_eq!(channel.metrics().messages_received, 1);
    channel.close();
    assert!(!channel.is_available());
    match channel.receive(Duration::from_millis(5)) {
        Err(AlecError::Channel(ChannelError::Disconnected { reason })) => assert_eq!(reason, "Channel is closed"),
        other => panic!("unexpected {:?}", other),
    }
}

#[test]
fn full_buffer_error_and_transfer_order() {
    let mut a = MemoryChannel::with_buffer_size(2);
    let mut b = MemoryChannel::new();
    a.send(make_test_message(1)).unwrap();
    a.send(make_test_message(2)).unwrap();
    assert_eq!(a.send(make_test_message(3)), Err(AlecError::Channel(ChannelError::BufferFull)));
    b.push_incoming(make_test_message(0));
    a.transfer_to(&mut b);
    assert_eq!(a.pending_outgoing(), 0);
    assert_eq!(b.pending_incoming(), 3);
    for expected in 0..3 {
        assert_eq!(b.receive(Duration::from_millis(1)).unwrap().header.sequence, expected);
    }
}

#[test]
fn pair_transfer_loops_each_channel_back() {
    let mut pair = ChannelPair::default();
    pair.emitter_to_receiver.send(make_test_message(1)).unwrap();
    pair.receiver_to_emitter.send(make_test_message(2)).unwrap();
    pair.transfer();
    assert_eq!(pair.emitter_to_receiver.pending_incoming(), 1);
    assert_eq!(pair.receiver_to_emitter.pending_incoming(), 1);
    assert_eq!(pair.emitter_to_receiver.pending_outgoing(), 0);
}

#[test]
fn lossy_channel_extremes() {
    let mut never = lossy(0.0);
    let mut always = lossy(1.0);
    for i in 0..20 {
        never.send(make_test_message(i)).unwrap();
        always.send(make_test_message(i)).unwrap();
    }
    assert_eq!(never.inner.pending_outgoing(), 20);
    assert_eq!(always.inner.pending_outgoing(), 0);
    assert_eq!(always.metrics().messages_sent, 20);
    assert_eq!(always.metrics().error_rate_bits, 1.0f32.to_bits());
    assert_eq!(never.metrics().error_rate_bits, 0);
}

#[test]
fn lossy_channel_first_draw() {
    // The first state after 12345 is 12345 * 1103515245 + 12345; its draw
    // is bits 16..31.
    let state = 12345u64.wrapping_mul(1103515245).wrapping_add(12345);
    let draw = ((state >> 16) & 0x7fff) as u32;
    let mut lose_first = LossyChannel::with_loss(0, draw + 1);
    lose_first.send(make_test_message(1)).unwrap();
    assert_eq!(lose_first.inner.pending_outgoing(), 0);
    let mut keep_first = LossyChannel::with_loss(0, draw);
    keep_first.send(make_test_message(1)).unwrap();
    assert_eq!(keep_first.inner.pending_outgoing(), 1);
}
