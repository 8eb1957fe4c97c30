//! Communication channels between emitters and receivers: an in-memory
//! channel with bounded send buffer, a pair of them, and a channel that
//! drops messages at a given rate.

use vstd::prelude::*;
use std::collections::VecDeque;
use std::time::Duration;

use crate::error::{AlecError, ChannelError};
use crate::protocol::EncodedMessage;

verus! {

/// Statistics about channel usage; the two rates are held as the bit
/// patterns of their `f32`.
#[derive(Debug, Clone, Copy, PartialEq, Eq, Structural)]
pub struct ChannelMetrics {
    /// Total bytes sent
    pub bytes_sent: u64,
    /// Total bytes received
    pub bytes_received: u64,
    /// Total messages sent
    pub messages_sent: u64,
    /// Total messages received
    pub messages_received: u64,
    /// Average latency in milliseconds
    pub latency_avg_ms_bits: u32,
    /// Error rate (0.0-1.0)
    pub error_rate_bits: u32,
    /// Estimated available bandwidth in bytes/sec
    pub bandwidth_available: u32,
}

/// Metrics with every count and rate at zero.
pub open spec fn zero_metrics() -> ChannelMetrics {
    ChannelMetrics {
        bytes_sent: 0,
        bytes_received: 0,
        messages_sent: 0,
        messages_received: 0,
        latency_avg_ms_bits: 0,
        error_rate_bits: 0,
        bandwidth_available: 0,
    }
}

impl Default for ChannelMetrics {
    fn default() -> (r: Self)
        ensures
            r == zero_metrics(),
    {
        ChannelMetrics {
            bytes_sent: 0,
            bytes_received: 0,
            messages_sent: 0,
            messages_received: 0,
            latency_avg_ms_bits: 0,
            error_rate_bits: 0,
            bandwidth_available: 0,
        }
    }
}

/// The size of a message on the wire: header and payload.
pub open spec fn wire_len(m: EncodedMessage) -> int {
    10 + m.payload@.len() as int
}

/// The metrics after counting `m` as sent.
pub open spec fn counted_sent(x: ChannelMetrics, m: EncodedMessage) -> ChannelMetrics {
    ChannelMetrics {
        bytes_sent: (x.bytes_sent + wire_len(m)) as u64,
        messages_sent: (x.messages_sent + 1) as u64,
        ..x
    }
}

/// The metrics after counting `m` as received.
pub open spec fn counted_received(x: ChannelMetrics, m: EncodedMessage) -> ChannelMetrics {
    ChannelMetrics {
        bytes_received: (x.bytes_received + wire_len(m)) as u64,
        messages_received: (x.messages_received + 1) as u64,
        ..x
    }
}

/// Whether counting `m` as sent fits the counters.
pub open spec fn send_fits(x: ChannelMetrics, m: EncodedMessage) -> bool {
    &&& wire_len(m) <= usize::MAX
    &&& x.bytes_sent + wire_len(m) <= u64::MAX
    &&& x.messages_sent < u64::MAX
}

/// Whether counting `m` as received fits the counters.
pub open spec fn receive_fits(x: ChannelMetrics, m: EncodedMessage) -> bool {
    &&& wire_len(m) <= usize::MAX
    &&& x.bytes_received + wire_len(m) <= u64::MAX
    &&& x.messages_received < u64::MAX
}

/// A communication channel.
pub trait Channel: Sized {
    /// Whether sending `message` keeps the channel's counters in range.
    spec fn can_send(&self, message: EncodedMessage) -> bool;

    /// Whether receiving the next message keeps the channel's counters in
    /// range.
    spec fn can_receive(&self) -> bool;

    /// Send a message through the channel.
    fn send(&mut self, message: EncodedMessage) -> (r: Result<(), AlecError>)
        requires
            old(self).can_send(message),
    ;

    /// Receive a message (waiting at most `timeout`).
    fn receive(&mut self, timeout: Duration) -> (r: Result<EncodedMessage, AlecError>)
        requires
            old(self).can_receive(),
    ;

    /// Check if the channel is available.
    fn is_available(&self) -> bool;

    /// Get channel metrics.
    fn metrics(&self) -> ChannelMetrics;

    /// Close the channel.
    fn close(&mut self);
}

/// An in-memory channel, by value.
pub struct MemoryChannelView {
    /// Messages sent and not yet transmitted, oldest first
    pub outgoing: Seq<EncodedMessage>,
    /// Messages transmitted and not yet received, oldest first
    pub incoming: Seq<EncodedMessage>,
    pub max_buffer_size: usize,
    pub is_open: bool,
    pub metrics: ChannelMetrics,
}

/// A simple in-memory channel for testing and local communication.
#[derive(Debug)]
pub struct MemoryChannel {
    /// Outgoing messages (send buffer)
    tx_buffer: VecDeque<EncodedMessage>,
    /// Incoming messages (receive buffer)
    rx_buffer: VecDeque<EncodedMessage>,
    /// Maximum buffer size
    max_buffer_size: usize,
    /// Whether the channel is open
    is_open: bool,
    /// Metrics
    metrics: ChannelMetrics,
}

impl View for MemoryChannel {
    type V = MemoryChannelView;

    closed spec fn view(&self) -> MemoryChannelView {
        MemoryChannelView {
            outgoing: self.tx_buffer@,
            incoming: self.rx_buffer@,
            max_buffer_size: self.max_buffer_size,
            is_open: self.is_open,
            metrics: self.metrics,
        }
    }
}

/// Whether sending `m` on a channel in state `v` is in range: a closed or
/// full channel counts nothing.
pub open spec fn memory_can_send(v: MemoryChannelView, m: EncodedMessage) -> bool {
    v.is_open && v.outgoing.len() < v.max_buffer_size ==> send_fits(v.metrics, m)
}

/// Whether receiving on a channel in state `v` is in range.
pub open spec fn memory_can_receive(v: MemoryChannelView) -> bool {
    v.is_open && v.incoming.len() > 0 ==> receive_fits(v.metrics, v.incoming[0])
}

/// Whether `v2` and `r` are the state and result of sending `m` on a
/// channel in state `v`: a closed channel is disconnected, a full buffer
/// refuses the message, otherwise it is queued and counted as sent.
pub open spec fn sent_on(v: MemoryChannelView, m: EncodedMessage, v2: MemoryChannelView, r: Result<(), AlecError>) -> bool {
    &&& !v.is_open ==> v2 == v && (r matches Err(AlecError::Channel(ChannelError::Disconnected { reason }))
        && reason@ == "Channel is closed"@)
    &&& v.is_open && v.outgoing.len() >= v.max_buffer_size ==> v2 == v && r == Err::<(), AlecError>(
        AlecError::Channel(ChannelError::BufferFull),
    )
    &&& v.is_open && v.outgoing.len() < v.max_buffer_size ==> r is Ok && v2 == (MemoryChannelView {
        outgoing: v.outgoing.push(m),
        metrics: counted_sent(v.metrics, m),
        ..v
    })
}

/// Whether `v2` and `r` are the state and result of receiving on a channel
/// in state `v`: a closed channel is disconnected, an empty one times out,
/// otherwise the oldest incoming message is taken and counted as received.
pub open spec fn received_on(v: MemoryChannelView, v2: MemoryChannelView, r: Result<EncodedMessage, AlecError>) -> bool {
    &&& !v.is_open ==> v2 == v && (r matches Err(AlecError::Channel(ChannelError::Disconnected { reason }))
        && reason@ == "Channel is closed"@)
    &&& v.is_open && v.incoming.len() == 0 ==> v2 == v && r == Err::<EncodedMessage, AlecError>(
        AlecError::Channel(ChannelError::Timeout { timeout_ms: 0 }),
    )
    &&& v.is_open && v.incoming.len() > 0 ==> r == Ok::<EncodedMessage, AlecError>(v.incoming[0]) && v2 == (
    MemoryChannelView {
        incoming: v.incoming.drop_first(),
        metrics: counted_received(v.metrics, v.incoming[0]),
        ..v
    })
}

impl MemoryChannel {
    /// Create a new memory channel holding at most 1000 outgoing messages.
    pub fn new() -> (r: Self)
        ensures
            r@.outgoing.len() == 0,
            r@.incoming.len() == 0,
            r@.max_buffer_size == 1000,
            r@.is_open,
            r@.metrics == zero_metrics(),
    {
        Self::with_buffer_size(1000)
    }

    /// Create with custom buffer size.
    pub fn with_buffer_size(max_size: usize) -> (r: Self)
        ensures
            r@.outgoing.len() == 0,
            r@.incoming.len() == 0,
            r@.max_buffer_size == max_size,
            r@.is_open,
            r@.metrics == zero_metrics(),
    {
        MemoryChannel {
            tx_buffer: VecDeque::new(),
            rx_buffer: VecDeque::new(),
            max_buffer_size: max_size,
            is_open: true,
            metrics: ChannelMetrics::default(),
        }
    }

    /// Push a message to the receive buffer (simulate receiving).
    pub fn push_incoming(&mut self, message: EncodedMessage)
        ensures
            final(self)@ == (MemoryChannelView { incoming: old(self)@.incoming.push(message), ..old(self)@ }),
    {
        self.rx_buffer.push_back(message);
    }

    /// Pop a message from the send buffer (simulate transmission).
    pub fn pop_outgoing(&mut self) -> (r: Option<EncodedMessage>)
        ensures
            old(self)@.outgoing.len() == 0 ==> r is None && final(self)@ == old(self)@,
            old(self)@.outgoing.len() > 0 ==> r == Some(old(self)@.outgoing[0]) && final(self)@ == (MemoryChannelView {
                outgoing: old(self)@.outgoing.drop_first(),
                ..old(self)@
            }),
    {
        self.tx_buffer.pop_front()
    }

    /// Get number of pending outgoing messages.
    pub fn pending_outgoing(&self) -> (r: usize)
        ensures
            r == self@.outgoing.len(),
    {
        self.tx_buffer.len()
    }

    /// Get number of pending incoming messages.
    pub fn pending_incoming(&self) -> (r: usize)
        ensures
            r == self@.incoming.len(),
    {
        self.rx_buffer.len()
    }

    /// Transfer all messages from this channel's send buffer to the end of
    /// another channel's receive buffer, in order.
    pub fn transfer_to(&mut self, other: &mut MemoryChannel)
        ensures
            final(self)@ == (MemoryChannelView { outgoing: Seq::empty(), ..old(self)@ }),
            final(other)@ == (MemoryChannelView {
                incoming: old(other)@.incoming + old(self)@.outgoing,
                ..old(other)@
            }),
    {
        let ghost moved = self.tx_buffer@;
        loop
            invariant
                moved == old(self)@.outgoing,
                self@ == (MemoryChannelView { outgoing: self@.outgoing, ..old(self)@ }),
                other@ == (MemoryChannelView { incoming: other@.incoming, ..old(other)@ }),
                old(other)@.incoming + moved == other@.incoming + self@.outgoing,
            ensures
                self@ == (MemoryChannelView { outgoing: Seq::empty(), ..old(self)@ }),
                other@ == (MemoryChannelView { incoming: other@.incoming, ..old(other)@ }),
                old(other)@.incoming + moved == other@.incoming + self@.outgoing,
            decreases self@.outgoing.len(),
        {
            match self.tx_buffer.pop_front() {
                Some(msg) => {
                    let ghost rest = self.tx_buffer@;
                    other.rx_buffer.push_back(msg);
                    proof {
                        assert(other@.incoming + self@.outgoing =~= other@.incoming.drop_last() + seq![msg] + rest);
                    }
                },
                None => {
                    assert(self@.outgoing =~= Seq::<EncodedMessage>::empty());
                    break;
                },
            }
        }
        assert(old(other)@.incoming + moved =~= other@.incoming);
    }
}

impl Default for MemoryChannel {
    fn default() -> (r: Self)
        ensures
            r@.outgoing.len() == 0,
            r@.incoming.len() == 0,
            r@.max_buffer_size == 1000,
            r@.is_open,
            r@.metrics == zero_metrics(),
    {
        Self::new()
    }
}

impl Channel for MemoryChannel {
    open spec fn can_send(&self, message: EncodedMessage) -> bool {
        memory_can_send(self@, message)
    }

    open spec fn can_receive(&self) -> bool {
        memory_can_receive(self@)
    }

    /// Queues `message` for transmission and counts it as sent; a closed
    /// channel is disconnected and a full buffer refuses it.
    fn send(&mut self, message: EncodedMessage) -> (r: Result<(), AlecError>)
        ensures
            sent_on(old(self)@, message, final(self)@, r),
    {
        if !self.is_open {
            return Err(AlecError::Channel(ChannelError::Disconnected { reason: "Channel is closed".to_string() }));
        }
        if self.tx_buffer.len() >= self.max_buffer_size {
            return Err(AlecError::Channel(ChannelError::BufferFull));
        }
        let msg_size = message.len();
        self.tx_buffer.push_back(message);
        self.metrics.bytes_sent = self.metrics.bytes_sent + msg_size as u64;
        self.metrics.messages_sent = self.metrics.messages_sent + 1;
        Ok(())
    }

    /// Takes the oldest incoming message and counts it as received; a
    /// closed channel is disconnected and an empty one times out.
    fn receive(&mut self, _timeout: Duration) -> (r: Result<EncodedMessage, AlecError>)
        ensures
            received_on(old(self)@, final(self)@, r),
    {
        if !self.is_open {
            return Err(AlecError::Channel(ChannelError::Disconnected { reason: "Channel is closed".to_string() }));
        }
        match self.rx_buffer.pop_front() {
            Some(msg) => {
                self.metrics.bytes_received = self.metrics.bytes_received + msg.len() as u64;
                self.metrics.messages_received = self.metrics.messages_received + 1;
                Ok(msg)
            },
            None => Err(AlecError::Channel(ChannelError::Timeout { timeout_ms: 0 })),
        }
    }

    /// Whether the channel is open.
    fn is_available(&self) -> (r: bool)
        ensures
            r == self@.is_open,
    {
        self.is_open
    }

    /// The channel's metrics.
    fn metrics(&self) -> (r: ChannelMetrics)
        ensures
            r == self@.metrics,
    {
        self.metrics
    }

    /// Closes the channel; the buffers stay as they are.
    fn close(&mut self)
        ensures
            final(self)@ == (MemoryChannelView { is_open: false, ..old(self)@ }),
    {
        self.is_open = false;
    }
}

/// A channel pair for bidirectional communication.
#[derive(Debug)]
pub struct ChannelPair {
    /// Emitter to Receiver channel
    pub emitter_to_receiver: MemoryChannel,
    /// Receiver to Emitter channel
    pub receiver_to_emitter: MemoryChannel,
}

impl ChannelPair {
    /// Create a new channel pair.
    pub fn new() -> (r: Self)
        ensures
            r.emitter_to_receiver@.outgoing.len() == 0,
            r.emitter_to_receiver@.incoming.len() == 0,
            r.emitter_to_receiver@.max_buffer_size == 1000,
            r.emitter_to_receiver@.is_open,
            r.emitter_to_receiver@.metrics == zero_metrics(),
            r.receiver_to_emitter@.outgoing.len() == 0,
            r.receiver_to_emitter@.incoming.len() == 0,
            r.receiver_to_emitter@.max_buffer_size == 1000,
            r.receiver_to_emitter@.is_open,
            r.receiver_to_emitter@.metrics == zero_metrics(),
    {
        ChannelPair { emitter_to_receiver: MemoryChannel::new(), receiver_to_emitter: MemoryChannel::new() }
    }

    /// Simulate network transfer: each channel's outgoing messages move, in
    /// order, to the end of that same channel's incoming messages.
    pub fn transfer(&mut self)
        ensures
            final(self).emitter_to_receiver@ == looped_back(old(self).emitter_to_receiver@),
            final(self).receiver_to_emitter@ == looped_back(old(self).receiver_to_emitter@),
    {
        loop_back(&mut self.emitter_to_receiver);
        loop_back(&mut self.receiver_to_emitter);
    }
}

/// Moves every outgoing message of `c`, in order, to the end of its own
/// incoming messages.
fn loop_back(c: &mut MemoryChannel)
    ensures
        final(c)@ == looped_back(old(c)@),
{
    let ghost start = c@;
    loop
        invariant
            c@ == (MemoryChannelView { outgoing: c@.outgoing, incoming: c@.incoming, ..start }),
            start == old(c)@,
            start.incoming + start.outgoing == c@.incoming + c@.outgoing,
        ensures
            c@ == (MemoryChannelView { outgoing: Seq::empty(), incoming: c@.incoming, ..start }),
            start == old(c)@,
            start.incoming + start.outgoing == c@.incoming + c@.outgoing,
        decreases c@.outgoing.len(),
    {
        match c.pop_outgoing() {
            Some(msg) => {
                let ghost rest = c@.outgoing;
                c.push_incoming(msg);
                proof {
                    assert(c@.incoming + c@.outgoing =~= c@.incoming.drop_last() + seq![msg] + rest);
                }
            },
            None => {
                assert(c@.outgoing =~= Seq::<EncodedMessage>::empty());
                break;
            },
        }
    }
    assert(c@.incoming + c@.outgoing =~= c@.incoming);
}

/// The state of a channel whose outgoing messages were moved, in order, to
/// the end of its own incoming messages.
pub open spec fn looped_back(v: MemoryChannelView) -> MemoryChannelView {
    MemoryChannelView { outgoing: Seq::empty(), incoming: v.incoming + v.outgoing, ..v }
}

/// Messages come out in the order they were sent: on an open channel with
/// empty buffers and room for two messages, sending `m1` then `m2`,
/// transferring, and receiving twice gives `m1` then `m2`.
pub proof fn lemma_channel_fifo(
    v0: MemoryChannelView,
    m1: EncodedMessage,
    m2: EncodedMessage,
    v1: MemoryChannelView,
    r1: Result<(), AlecError>,
    v2: MemoryChannelView,
    r2: Result<(), AlecError>,
    v3: MemoryChannelView,
    x1: Result<EncodedMessage, AlecError>,
    v4: MemoryChannelView,
    x2: Result<EncodedMessage, AlecError>,
)
    requires
        v0.is_open,
        v0.outgoing.len() == 0,
        v0.incoming.len() == 0,
        v0.max_buffer_size >= 2,
        sent_on(v0, m1, v1, r1),
        sent_on(v1, m2, v2, r2),
        received_on(looped_back(v2), v3, x1),
        received_on(v3, v4, x2),
    ensures
        r1 is Ok,
        r2 is Ok,
        x1 == Ok::<EncodedMessage, AlecError>(m1),
        x2 == Ok::<EncodedMessage, AlecError>(m2),
        v4.incoming.len() == 0,
{
    assert(v2.outgoing =~= seq![m1, m2]);
    assert(looped_back(v2).incoming =~= seq![m1, m2]);
    assert(v3.incoming =~= seq![m2]);
}

impl Default for ChannelPair {
    fn default() -> (r: Self)
        ensures
            r.emitter_to_receiver@.outgoing.len() == 0,
            r.emitter_to_receiver@.incoming.len() == 0,
            r.receiver_to_emitter@.outgoing.len() == 0,
            r.receiver_to_emitter@.incoming.len() == 0,
    {
        Self::new()
    }
}

/// The state that follows `s` in the lossy channel's pseudo-random
/// sequence.
pub open spec fn next_rng_state(s: u64) -> u64 {
    ((s * 1103515245 + 12345) % 0x1_0000_0000_0000_0000) as u64
}

/// The 15-bit draw that a state gives.
pub open spec fn rng_draw(s: u64) -> u64 {
    (s / 65536) % 32768
}

/// A lossy channel, by value.
pub struct LossyChannelView {
    pub inner: MemoryChannelView,
    pub loss_rate_bits: u32,
    pub loss_threshold: u32,
    pub rng_state: u64,
}

/// Lossy channel that simulates packet loss: each send draws a number
/// below 32768 from a deterministic generator, and the message is lost when
/// the draw is below the loss threshold (the number of draws `k` whose
/// ratio `k / 32767` is below the loss rate).
#[derive(Debug)]
pub struct LossyChannel {
    /// The channel that carries the messages that are not lost
    pub inner: MemoryChannel,
    /// The loss rate, as the bit pattern of its `f32`
    loss_rate_bits: u32,
    /// How many of the 32768 draws lose the message
    loss_threshold: u32,
    rng_state: u64,
}

impl View for LossyChannel {
    type V = LossyChannelView;

    closed spec fn view(&self) -> LossyChannelView {
        LossyChannelView {
            inner: self.inner@,
            loss_rate_bits: self.loss_rate_bits,
            loss_threshold: self.loss_threshold,
            rng_state: self.rng_state,
        }
    }
}

impl LossyChannel {
    /// A lossy channel over a fresh memory channel, with the given loss rate
    /// and the threshold of draws that it loses; the generator starts at
    /// 12345.
    pub fn with_loss(loss_rate_bits: u32, loss_threshold: u32) -> (r: Self)
        ensures
            r@.inner.outgoing.len() == 0,
            r@.inner.incoming.len() == 0,
            r@.inner.max_buffer_size == 1000,
            r@.inner.is_open,
            r@.inner.metrics == zero_metrics(),
            r@.loss_rate_bits == loss_rate_bits,
            r@.loss_threshold == loss_threshold,
            r@.rng_state == 12345,
    {
        LossyChannel { inner: MemoryChannel::new(), loss_rate_bits, loss_threshold, rng_state: 12345 }
    }

    /// Advances the generator and returns the draw of the new state.
    fn next_draw(&mut self) -> (k: u64)
        ensures
            final(self)@ == (LossyChannelView { rng_state: next_rng_state(old(self)@.rng_state), ..old(self)@ }),
            k == rng_draw(next_rng_state(old(self)@.rng_state)),
    {
        let s = self.rng_state;
        let next = s.wrapping_mul(1103515245).wrapping_add(12345);
        proof {
            let n: int = 0x1_0000_0000_0000_0000;
            vstd::arithmetic::div_mod::lemma_add_mod_noop(s * 1103515245, 12345, n);
            assert(12345int % n == 12345);
        }
        self.rng_state = next;
        let k = (next >> 16) & 0x7fff;
        assert(k == (next / 65536) % 32768) by (bit_vector)
            requires
                k == (next >> 16) & 0x7fff,
        ;
        k
    }
}

/// Whether the draw that follows state `s` loses a message.
pub open spec fn loses(v: LossyChannelView) -> bool {
    rng_draw(next_rng_state(v.rng_state)) < v.loss_threshold
}

impl Channel for LossyChannel {
    open spec fn can_send(&self, message: EncodedMessage) -> bool {
        if loses(self@) {
            send_fits(self@.inner.metrics, message)
        } else {
            memory_can_send(self@.inner, message)
        }
    }

    open spec fn can_receive(&self) -> bool {
        memory_can_receive(self@.inner)
    }

    /// Draws; a lost message is counted as sent and sets the error rate to
    /// the loss rate, any other is sent on the inner channel.
    fn send(&mut self, message: EncodedMessage) -> (r: Result<(), AlecError>)
        ensures
            final(self)@.rng_state == next_rng_state(old(self)@.rng_state),
            final(self)@.loss_rate_bits == old(self)@.loss_rate_bits,
            final(self)@.loss_threshold == old(self)@.loss_threshold,
            loses(old(self)@) ==> r is Ok && final(self)@.inner == (MemoryChannelView {
                metrics: ChannelMetrics {
                    error_rate_bits: old(self)@.loss_rate_bits,
                    ..counted_sent(old(self)@.inner.metrics, message)
                },
                ..old(self)@.inner
            }),
            !loses(old(self)@) ==> sent_on(old(self)@.inner, message, final(self)@.inner, r),
    {
        let k = self.next_draw();
        if k < self.loss_threshold as u64 {
            let size = message.len() as u64;
            self.inner.metrics.bytes_sent = self.inner.metrics.bytes_sent + size;
            self.inner.metrics.messages_sent = self.inner.metrics.messages_sent + 1;
            self.inner.metrics.error_rate_bits = self.loss_rate_bits;
            return Ok(());
        }
        self.inner.send(message)
    }

    /// Receives on the inner channel.
    fn receive(&mut self, timeout: Duration) -> (r: Result<EncodedMessage, AlecError>)
        ensures
            final(self)@ == (LossyChannelView { inner: final(self)@.inner, ..old(self)@ }),
            received_on(old(self)@.inner, final(self)@.inner, r),
    {
        self.inner.receive(timeout)
    }

    /// Whether the inner channel is open.
    fn is_available(&self) -> (r: bool)
        ensures
            r == self@.inner.is_open,
    {
        self.inner.is_available()
    }

    /// The inner channel's metrics.
    fn metrics(&self) -> (r: ChannelMetrics)
        ensures
            r == self@.inner.metrics,
    {
        self.inner.metrics()
    }

    /// Closes the inner channel.
    fn close(&mut self)
        ensures
            final(self)@ == (LossyChannelView {
                inner: MemoryChannelView { is_open: false, ..old(self)@.inner },
                ..old(self)@
            }),
    {
        self.inner.close()
    }
}

} // verus!
