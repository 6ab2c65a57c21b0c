//! Receiving a file over serial with the XMODEM protocol: packet parsing,
//! and the receiver's decisions between the bytes it writes and reads.
//! The caller performs the serial writes and reads the receiver asks for.

use vstd::prelude::*;

verus! {

/// Start of a data packet.
pub const SOH: u8 = 0x01;
/// End of transmission.
pub const EOT: u8 = 0x04;
/// Acknowledge.
pub const ACK: u8 = 0x06;
/// Negative acknowledge: asks for the packet again (or for the first one).
pub const NAK: u8 = 0x15;
/// End of transmission block.
pub const ETB: u8 = 0x17;
/// Bytes of payload in a packet.
pub const PAYLOAD_SIZE: usize = 128;
/// Bytes in a whole packet: header, block number and its complement,
/// payload and checksum.
pub const MAX_PACKET_SIZE: usize = 132;
/// Attempts at a block before the transfer is given up.
pub const MAX_RETRIES: u32 = 10;

/// One block of a file.
pub type FileBlock = [u8; 128];

/// A parsed XMODEM message.
#[derive(Copy, Clone, Debug, PartialEq, Eq)]
pub enum Message {
    EndOfTransmission,
    Chunk { block_number: u8, payload: [u8; 128] },
}

/// Sum of the bytes, modulo 256.
pub open spec fn checksum(s: Seq<u8>) -> int
    decreases s.len(),
{
    if s.len() == 0 {
        0
    } else {
        (checksum(s.drop_last()) + s.last()) % 256
    }
}

/// A well formed data packet: header, a block number followed by its
/// complement, and a checksum over the payload.
pub open spec fn is_chunk(b: Seq<u8>) -> bool {
    &&& b.len() >= MAX_PACKET_SIZE
    &&& b[0] == SOH
    &&& b[2] == 255 - b[1]
    &&& b[131] == checksum(b.subrange(3, 131))
}

/// An end of transmission.
pub open spec fn is_eot(b: Seq<u8>) -> bool {
    b.len() >= 1 && b[0] == EOT
}

/// What a buffer parses as.
pub open spec fn parse_spec(b: Seq<u8>) -> Option<(bool, u8, Seq<u8>)> {
    if b.len() >= 1 && b[0] == EOT {
        Some((true, 0, Seq::empty()))
    } else if is_chunk(b) {
        Some((false, b[1], b.subrange(3, 131)))
    } else {
        None
    }
}

/// Parses the start of a buffer as an XMODEM message.
pub fn parse_message(buffer: &[u8]) -> (r: Option<Message>)
    ensures
        match (r, parse_spec(buffer@)) {
            (None, None) => true,
            (Some(Message::EndOfTransmission), Some((eot, _, _))) => eot,
            (Some(Message::Chunk { block_number, payload }), Some((eot, n, p))) => !eot && block_number == n && payload@ == p,
            _ => false,
        },
{
    if buffer.len() >= 1 && buffer[0] == EOT {
        return Some(Message::EndOfTransmission);
    }
    if buffer.len() < MAX_PACKET_SIZE || buffer[0] != SOH || buffer[2] != 255 - buffer[1] {
        return None;
    }
    let mut sum: u8 = 0;
    let mut payload = [0u8; 128];
    let mut i: usize = 0;
    while i < PAYLOAD_SIZE
        invariant
            i <= PAYLOAD_SIZE,
            buffer@.len() >= MAX_PACKET_SIZE,
            sum == checksum(buffer@.subrange(3, 3 + i)),
            forall|k: int| 0 <= k < i ==> #[trigger] payload@[k] == buffer@[3 + k],
        decreases PAYLOAD_SIZE - i,
    {
        proof {
            assert(buffer@.subrange(3, 3 + i + 1).drop_last() =~= buffer@.subrange(3, 3 + i));
        }
        let b = buffer[3 + i];
        sum = ((sum as u16 + b as u16) % 256) as u8;
        payload[i] = b;
        i = i + 1;
    }
    if buffer[131] != sum {
        return None;
    }
    assert(payload@ =~= buffer@.subrange(3, 131));
    Some(Message::Chunk { block_number: buffer[1], payload })
}

/// What the receiver asks the caller to do next.
#[derive(Copy, Clone, Debug, PartialEq, Eq)]
pub enum Action {
    /// Write this byte.
    Send(u8),
    /// The transfer is over; there are no more blocks.
    Done,
}

/// What a byte read (or a read that timed out) leads to.
#[derive(Copy, Clone, Debug, PartialEq, Eq)]
pub enum ByteOutcome {
    /// Keep reading.
    Continue,
    /// A new block arrived.
    Block(FileBlock),
    /// The sender ended the transmission: write `ACK`, read one byte, and
    /// if it is `ETB`, write `ACK` again. There are no more blocks.
    EndOfTransmission,
    /// Start the block over: ask for the next action.
    Restart,
}

/// Block numbers that count up from one, modulo 256: the `k`-th (from
/// zero) is `k + 1` modulo 256.
pub open spec fn numbered_in_order(numbers: Seq<u8>) -> bool {
    forall|k: int| 0 <= k < numbers.len() ==> #[trigger] numbers[k] as int == (k + 1) % 256
}

/// An XMODEM receiver: which block comes next, and how the current one
/// is going.
pub struct Receiver {
    received_block: bool,
    finished: bool,
    block_number: u8,
    retries: u32,
    buffer: [u8; 132],
    index: usize,
    /// Block numbers of the blocks handed out so far, in order.
    delivered: Ghost<Seq<u8>>,
}

impl Receiver {
    pub closed spec fn spec_block_number(&self) -> u8 {
        self.block_number
    }

    pub closed spec fn spec_finished(&self) -> bool {
        self.finished
    }

    pub closed spec fn spec_received_block(&self) -> bool {
        self.received_block
    }

    pub closed spec fn spec_retries(&self) -> u32 {
        self.retries
    }

    pub closed spec fn spec_index(&self) -> usize {
        self.index
    }

    pub closed spec fn spec_buffer(&self) -> Seq<u8> {
        self.buffer@
    }

    /// Block numbers of the blocks handed out so far, in order.
    pub closed spec fn spec_delivered(&self) -> Seq<u8> {
        self.delivered@
    }

    /// The receiver's bookkeeping: the next byte goes within the buffer,
    /// and the blocks handed out so far were numbered one after the other,
    /// starting at one (modulo 256); the last of them is the current block
    /// number.
    pub closed spec fn wf(&self) -> bool {
        &&& self.index < MAX_PACKET_SIZE
        &&& numbered_in_order(self.delivered@)
        &&& self.block_number as int == self.delivered@.len() % 256
    }

    /// A receiver expecting the first block.
    pub fn new() -> (r: Self)
        ensures
            r.wf(),
            r.spec_block_number() == 0,
            !r.spec_finished(),
            !r.spec_received_block(),
            r.spec_retries() == 0,
            r.spec_index() == 0,
            r.spec_buffer() == Seq::new(MAX_PACKET_SIZE as nat, |i: int| 0u8),
            r.spec_delivered() == Seq::<u8>::empty(),
    {
        Receiver {
            received_block: false,
            finished: false,
            block_number: 0,
            retries: 0,
            buffer: [0u8; 132],
            index: 0,
            delivered: Ghost(Seq::empty()),
        }
    }

    /// The block a chunk carries, if it is the next one expected.
    pub fn process_chunk(&self, block_number: u8, payload: [u8; 128]) -> (r: Option<FileBlock>)
        ensures
            r == if block_number as int == (self.spec_block_number() + 1) % 256 { Some(payload) } else { None },
    {
        let next_block = self.block_number.wrapping_add(1);
        if block_number == next_block {
            Some(payload)
        } else {
            None
        }
    }

    /// Handles a buffer: an end of transmission finishes the transfer; a
    /// chunk carrying the next block is accepted and counted.
    pub fn process_message(&mut self, buffer: &[u8]) -> (r: Option<FileBlock>)
        ensures
            final(self).spec_received_block() == old(self).spec_received_block(),
            final(self).spec_retries() == old(self).spec_retries(),
            final(self).spec_index() == old(self).spec_index(),
            final(self).spec_buffer() == old(self).spec_buffer(),
            old(self).wf() ==> final(self).wf(),
            r is Some ==> final(self).spec_delivered() == old(self).spec_delivered().push(final(self).spec_block_number()),
            r is None ==> final(self).spec_delivered() == old(self).spec_delivered(),
            match parse_spec(buffer@) {
                Some((true, _, _)) => r is None && final(self).spec_finished() && final(self).spec_block_number()
                    == old(self).spec_block_number(),
                Some((false, n, p)) => final(self).spec_finished() == old(self).spec_finished() && if n as int == (
                old(self).spec_block_number() + 1) % 256 {
                    r matches Some(b) && b@ == p && final(self).spec_block_number() as int == n as int
                } else {
                    r is None && final(self).spec_block_number() == old(self).spec_block_number()
                },
                None => r is None && final(self).spec_finished() == old(self).spec_finished()
                    && final(self).spec_block_number() == old(self).spec_block_number(),
            },
    {
        match parse_message(buffer) {
            Some(Message::EndOfTransmission) => {
                self.end_transmission();
                None
            },
            Some(Message::Chunk { block_number, payload }) => {
                match self.process_chunk(block_number, payload) {
                    Some(block) => {
                        self.block_number = self.block_number.wrapping_add(1);
                        proof {
                            let old_len = self.delivered@.len();
                            self.delivered@ = self.delivered@.push(self.block_number);
                            if old(self).wf() {
                                assert(self.block_number as int == (old_len + 1) % 256);
                            }
                        }
                        Some(block)
                    },
                    None => None,
                }
            },
            None => None,
        }
    }

    /// Marks the transfer as finished.
    pub fn end_transmission(&mut self)
        ensures
            final(self).spec_finished(),
            final(self).spec_block_number() == old(self).spec_block_number(),
            final(self).spec_received_block() == old(self).spec_received_block(),
            final(self).spec_retries() == old(self).spec_retries(),
            final(self).spec_index() == old(self).spec_index(),
            final(self).spec_buffer() == old(self).spec_buffer(),
            final(self).spec_delivered() == old(self).spec_delivered(),
            old(self).wf() ==> final(self).wf(),
    {
        self.finished = true;
    }

    /// What to do next: nothing once the transfer is over, or has run out
    /// of retries (which ends it); otherwise acknowledge the last block,
    /// or ask for one.
    pub fn next_action(&mut self) -> (r: Action)
        requires
            old(self).wf(),
        ensures
            final(self).wf(),
            old(self).spec_finished() ==> r == Action::Done && *final(self) == *old(self),
            !old(self).spec_finished() && old(self).spec_retries() >= MAX_RETRIES ==> r == Action::Done
                && final(self).spec_finished(),
            !old(self).spec_finished() && old(self).spec_retries() < MAX_RETRIES ==> r == Action::Send(
                if old(self).spec_received_block() { ACK } else { NAK },
            ) && *final(self) == *old(self),
            final(self).spec_block_number() == old(self).spec_block_number(),
            final(self).spec_delivered() == old(self).spec_delivered(),
            r is Done ==> final(self).spec_finished(),
    {
        if self.finished {
            return Action::Done;
        }
        if self.retries >= MAX_RETRIES {
            self.finished = true;
            return Action::Done;
        }
        Action::Send(if self.received_block { ACK } else { NAK })
    }

    /// The caller wrote the byte it was asked to (or failed to): a failed
    /// write costs a retry; a written one starts a new packet.
    pub fn on_sent(&mut self, ok: bool)
        requires
            old(self).wf(),
            old(self).spec_retries() < MAX_RETRIES,
        ensures
            final(self).wf(),
            final(self).spec_block_number() == old(self).spec_block_number(),
            final(self).spec_finished() == old(self).spec_finished(),
            ok ==> !final(self).spec_received_block() && final(self).spec_index() == 0 && final(self).spec_retries()
                == old(self).spec_retries(),
            !ok ==> final(self).spec_retries() == old(self).spec_retries() + 1 && final(self).spec_received_block()
                == old(self).spec_received_block(),
            final(self).spec_delivered() == old(self).spec_delivered(),
    {
        if ok {
            self.received_block = false;
            self.index = 0;
        } else {
            self.retries = self.retries + 1;
        }
    }

    /// A byte was read, or the read timed out (`None`). A timeout costs a
    /// retry. The first byte and the last byte of a packet are checked for
    /// a message: a new block is handed out, an end of transmission ends
    /// the transfer. A full buffer without either starts the block over.
    pub fn on_byte(&mut self, byte: Option<u8>) -> (r: ByteOutcome)
        requires
            old(self).wf(),
            old(self).spec_retries() < MAX_RETRIES,
            !old(self).spec_finished(),
        ensures
            final(self).wf(),
            byte is None ==> r == ByteOutcome::Restart && final(self).spec_retries() == old(self).spec_retries() + 1
                && final(self).spec_block_number() == old(self).spec_block_number() && final(self).spec_finished()
                == old(self).spec_finished(),
            r is Block ==> final(self).spec_delivered() == old(self).spec_delivered().push(final(self).spec_block_number())
                && final(self).spec_retries() == 0,
            !(r is Block) ==> final(self).spec_delivered() == old(self).spec_delivered(),
            byte matches Some(b) ==> {
                let i = old(self).spec_index() as int;
                let buf = old(self).spec_buffer().update(i, b);
                let checked = i == 0 || i == MAX_PACKET_SIZE - 1;
                &&& !(r is Block) ==> final(self).spec_retries() == old(self).spec_retries()
                &&& final(self).spec_buffer() == buf
                &&& checked && is_chunk(buf) && buf[1] as int == (old(self).spec_block_number() + 1) % 256
                    ==> (r matches ByteOutcome::Block(blk) && blk@ == buf.subrange(3, 131) && final(self).spec_received_block()
                        && final(self).spec_block_number() == buf[1])
                &&& checked && is_eot(buf) ==> r == ByteOutcome::EndOfTransmission && final(self).spec_finished()
                &&& r is EndOfTransmission ==> checked && is_eot(buf)
                &&& r is Block ==> checked && is_chunk(buf) && buf[1] as int == (old(self).spec_block_number() + 1) % 256
                &&& r is Continue ==> final(self).spec_index() == i + 1
                &&& r is Restart ==> i == MAX_PACKET_SIZE - 1
                &&& !(r is Block) ==> final(self).spec_block_number() == old(self).spec_block_number()
            },
    {
        let b = match byte {
            Some(b) => b,
            None => {
                self.retries = self.retries + 1;
                return ByteOutcome::Restart;
            },
        };
        let index = self.index;
        self.buffer[index] = b;
        if index == 0 || index == MAX_PACKET_SIZE - 1 {
            let buffer = self.buffer;
            if let Some(block) = self.process_message(&buffer) {
                self.received_block = true;
                self.retries = 0;
                return ByteOutcome::Block(block);
            }
            if self.finished {
                return ByteOutcome::EndOfTransmission;
            }
        }
        if index + 1 == MAX_PACKET_SIZE {
            return ByteOutcome::Restart;
        }
        self.index = index + 1;
        ByteOutcome::Continue
    }
}

/// Blocks come out of a receiver numbered in order: the `k`-th block it
/// hands out (counting from one) was sent as block `k`, modulo 256. Every
/// receiver that `Receiver::new` and the step functions produce satisfies
/// `wf`.
pub proof fn lemma_blocks_come_out_in_order(r: Receiver)
    requires
        r.wf(),
    ensures
        forall|k: int| 0 <= k < r.spec_delivered().len() ==> #[trigger] r.spec_delivered()[k] as int == (k + 1) % 256,
        r.spec_block_number() as int == r.spec_delivered().len() % 256,
{
}

} // verus!
