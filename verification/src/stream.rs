//! The byte stream of a client connection.
//!
//! A stream is a run of items. Each item begins with a tag byte that says
//! what follows: a block update of four bytes (chunk, column, block, new
//! kind), the length of a message in one byte, a message of the length
//! that was last announced, or a player position of twelve bytes. The
//! reader takes the bytes as they arrive, in pieces of any size, and hands
//! out the block updates. It keeps no messages and no player positions:
//! their bytes are read over.

use vstd::prelude::*;

use crate::block::WorldUpdate;

verus! {

/// The kind of data that the reader of a stream is waiting for.
#[derive(Clone, Copy, Debug, PartialEq, Eq, Structural)]
pub enum StreamReadState {
    /// Nothing has been read yet, or a piece of data has just been read to
    /// its end: the next byte says what follows.
    Unset,
    /// A block update; its tag is 0.
    BlockUpdate,
    /// The length of a message; its tag is 1.
    PreMessage,
    /// A message; its tag is 2.
    Message,
    /// The position of a player; its tag is 3.
    PlayerPos,
}

impl StreamReadState {
    /// The state named by a tag byte.
    pub open spec fn of_tag(tag: u8) -> StreamReadState {
        if tag == 0 {
            StreamReadState::BlockUpdate
        } else if tag == 1 {
            StreamReadState::PreMessage
        } else if tag == 2 {
            StreamReadState::Message
        } else {
            StreamReadState::PlayerPos
        }
    }

    /// How many bytes the state needs before it can go on, or `None` where
    /// the number is not fixed: a message is as long as the length before
    /// it said.
    pub fn needs_size(&self) -> (size: Option<usize>)
        ensures
            size == match *self {
                StreamReadState::Unset => Some(1usize),
                StreamReadState::BlockUpdate => Some(4usize),
                StreamReadState::PreMessage => Some(1usize),
                StreamReadState::Message => None,
                StreamReadState::PlayerPos => Some(12usize),
            },
    {
        match *self {
            StreamReadState::Unset => Some(1),
            StreamReadState::BlockUpdate => Some(4),
            StreamReadState::PreMessage => Some(1),
            StreamReadState::Message => None,
            StreamReadState::PlayerPos => Some(12),
        }
    }

    /// The state that a tag byte announces. Only the tags 0 to 3 exist.
    pub fn from_tag(tag: u8) -> (state: StreamReadState)
        requires
            tag <= 3,
        ensures
            state == StreamReadState::of_tag(tag),
    {
        match tag {
            0 => StreamReadState::BlockUpdate,
            1 => StreamReadState::PreMessage,
            2 => StreamReadState::Message,
            _ => StreamReadState::PlayerPos,
        }
    }
}

/// What a reader knows in the middle of a stream: what it is waiting for,
/// the length that was last announced for a message, and the bytes of the
/// current item that have arrived.
pub struct Reading {
    pub state: StreamReadState,
    pub dynamic_size: nat,
    pub data: Seq<u8>,
}

/// How many bytes an item needs.
pub open spec fn needed(state: StreamReadState, dynamic_size: nat) -> nat {
    match state {
        StreamReadState::Unset => 1,
        StreamReadState::BlockUpdate => 4,
        StreamReadState::PreMessage => 1,
        StreamReadState::Message => dynamic_size,
        StreamReadState::PlayerPos => 12,
    }
}

/// A reader between two items.
pub open spec fn between_items(dynamic_size: nat) -> Reading {
    Reading { state: StreamReadState::Unset, dynamic_size, data: Seq::empty() }
}

/// A reader that has just read the tag of an item. An item without bytes,
/// which only a message of length 0 is, is over at once.
pub open spec fn after_tag(tag: u8, dynamic_size: nat) -> Reading {
    let state = StreamReadState::of_tag(tag);
    if needed(state, dynamic_size) == 0 {
        between_items(dynamic_size)
    } else {
        Reading { state, dynamic_size, data: Seq::empty() }
    }
}

/// What one byte does to a reader.
pub struct Step {
    /// The reader after the byte.
    pub next: Reading,
    /// The block update that the byte completed, if it completed one.
    pub update: Option<WorldUpdate>,
    /// The byte, if it stands where a tag is due and is none.
    pub bad_tag: Option<u8>,
}

/// What the byte does to the reader: it is added to the current item, and
/// if the item is complete with it, the item is dealt with.
pub open spec fn step(reading: Reading, byte: u8) -> Step {
    let data = reading.data.push(byte);
    let dynamic_size = reading.dynamic_size;
    if data.len() < needed(reading.state, dynamic_size) {
        Step {
            next: Reading { state: reading.state, dynamic_size, data },
            update: None,
            bad_tag: None,
        }
    } else {
        match reading.state {
            StreamReadState::Unset => if data[0] <= 3 {
                Step { next: after_tag(data[0], dynamic_size), update: None, bad_tag: None }
            } else {
                Step { next: between_items(dynamic_size), update: None, bad_tag: Some(data[0]) }
            },
            StreamReadState::BlockUpdate => Step {
                next: between_items(dynamic_size),
                update: Some(
                    WorldUpdate {
                        chunk: data[0],
                        column: data[1],
                        block: data[2],
                        new_kind: data[3],
                    },
                ),
                bad_tag: None,
            },
            StreamReadState::PreMessage => Step {
                next: between_items(data[0] as nat),
                update: None,
                bad_tag: None,
            },
            StreamReadState::Message => Step {
                next: between_items(dynamic_size),
                update: None,
                bad_tag: None,
            },
            StreamReadState::PlayerPos => Step {
                next: between_items(dynamic_size),
                update: None,
                bad_tag: None,
            },
        }
    }
}

/// What a run of bytes does to a reader.
pub struct Run {
    /// The reader after the bytes.
    pub next: Reading,
    /// The block updates that the bytes completed, in their order.
    pub updates: Seq<WorldUpdate>,
    /// The first byte that stands where a tag is due and is none, if there
    /// is one. Nothing is read after it.
    pub bad_tag: Option<u8>,
}

/// What the bytes do to the reader, one after another, up to the first bad
/// tag.
pub open spec fn run(reading: Reading, bytes: Seq<u8>) -> Run
    decreases bytes.len(),
{
    if bytes.len() == 0 {
        Run { next: reading, updates: Seq::empty(), bad_tag: None }
    } else {
        let so_far = run(reading, bytes.drop_last());
        if so_far.bad_tag.is_some() {
            so_far
        } else {
            let last = step(so_far.next, bytes.last());
            Run {
                next: last.next,
                updates: match last.update {
                    Some(update) => so_far.updates.push(update),
                    None => so_far.updates,
                },
                bad_tag: last.bad_tag,
            }
        }
    }
}

/// The bytes that stand for a block update in a stream: the tag 0, then
/// chunk, column, block and new kind.
pub open spec fn encoded(update: WorldUpdate) -> Seq<u8> {
    seq![0u8, update.chunk, update.column, update.block, update.new_kind]
}

/// What came of a piece of a stream.
#[derive(Debug)]
pub struct ReadOutcome {
    /// The block updates that were completed, in their order.
    pub updates: Vec<WorldUpdate>,
    /// The first byte that stood where a tag was due and was none, if there
    /// was one. The bytes after it were not read.
    pub bad_tag: Option<u8>,
}

/// The reader of one client's stream.
pub struct StreamReader {
    state: StreamReadState,
    dynamic_size: usize,
    data: Vec<u8>,
}

impl View for StreamReader {
    type V = Reading;

    closed spec fn view(&self) -> Reading {
        Reading { state: self.state, dynamic_size: self.dynamic_size as nat, data: self.data@ }
    }
}

impl StreamReader {
    /// A reader at the beginning of a stream.
    pub fn new() -> (reader: StreamReader)
        ensures
            reader@ == between_items(0),
    {
        StreamReader { state: StreamReadState::Unset, dynamic_size: 0, data: Vec::new() }
    }

    /// What the reader is waiting for.
    pub fn state(&self) -> (state: StreamReadState)
        ensures
            state == self@.state,
    {
        self.state
    }

    /// Takes one byte of the stream. Returns the block update that the byte
    /// completed, if it completed one, or as an error the byte itself if it
    /// stands where a tag is due and is none.
    pub fn read_byte(&mut self, byte: u8) -> (outcome: Result<Option<WorldUpdate>, u8>)
        ensures
            final(self)@ == step(old(self)@, byte).next,
            match outcome {
                Ok(update) => step(old(self)@, byte).bad_tag.is_none() && update == step(
                    old(self)@,
                    byte,
                ).update,
                Err(tag) => step(old(self)@, byte).bad_tag == Some(tag),
            },
    {
        self.data.push(byte);
        let need = match self.state.needs_size() {
            Some(n) => n,
            None => self.dynamic_size,
        };
        if self.data.len() < need {
            return Ok(None);
        }
        let first = self.data[0];
        let mut update: Option<WorldUpdate> = None;
        let mut bad_tag: Option<u8> = None;
        let mut next = StreamReadState::Unset;
        match self.state {
            StreamReadState::Unset => {
                if first <= 3 {
                    let announced = StreamReadState::from_tag(first);
                    if !(announced == StreamReadState::Message && self.dynamic_size == 0) {
                        next = announced;
                    }
                } else {
                    bad_tag = Some(first);
                }
            },
            StreamReadState::BlockUpdate => {
                update = Some(
                    WorldUpdate::new(self.data[0], self.data[1], self.data[2], self.data[3]),
                );
            },
            StreamReadState::PreMessage => {
                self.dynamic_size = first as usize;
            },
            StreamReadState::Message => {},
            StreamReadState::PlayerPos => {},
        }
        self.state = next;
        self.data.clear();
        match bad_tag {
            Some(tag) => Err(tag),
            None => Ok(update),
        }
    }

    /// Takes a piece of the stream. Returns the block updates that the
    /// bytes completed. Reading ends at the first byte that stands where a
    /// tag is due and is none; the outcome names that byte.
    pub fn read_bytes(&mut self, bytes: &[u8]) -> (outcome: ReadOutcome)
        ensures
            final(self)@ == run(old(self)@, bytes@).next,
            outcome.updates@ == run(old(self)@, bytes@).updates,
            outcome.bad_tag == run(old(self)@, bytes@).bad_tag,
    {
        let mut updates: Vec<WorldUpdate> = Vec::new();
        let mut i: usize = 0;
        while i < bytes.len()
            invariant
                i <= bytes@.len(),
                run(old(self)@, bytes@.subrange(0, i as int)).bad_tag.is_none(),
                self@ == run(old(self)@, bytes@.subrange(0, i as int)).next,
                updates@ == run(old(self)@, bytes@.subrange(0, i as int)).updates,
            decreases bytes@.len() - i,
        {
            let ghost taken = bytes@.subrange(0, i + 1);
            proof {
                assert(taken.drop_last() == bytes@.subrange(0, i as int));
                assert(taken.last() == bytes@[i as int]);
            }
            match self.read_byte(bytes[i]) {
                Ok(Some(update)) => {
                    updates.push(update);
                },
                Ok(None) => {},
                Err(tag) => {
                    proof {
                        lemma_nothing_is_read_after_a_bad_tag(old(self)@, bytes@, i + 1);
                    }
                    return ReadOutcome { updates, bad_tag: Some(tag) };
                },
            }
            i += 1;
        }
        assert(bytes@.subrange(0, i as int) == bytes@);
        ReadOutcome { updates, bad_tag: None }
    }
}

/// The bytes that stand for a block update in a stream.
pub fn encode_update(update: WorldUpdate) -> (bytes: Vec<u8>)
    ensures
        bytes@ == encoded(update),
{
    let mut bytes: Vec<u8> = Vec::new();
    bytes.push(0);
    bytes.push(update.chunk);
    bytes.push(update.column);
    bytes.push(update.block);
    bytes.push(update.new_kind);
    assert(bytes@ =~= encoded(update));
    bytes
}

/// Once a bad tag has come, the bytes after it change nothing.
pub proof fn lemma_nothing_is_read_after_a_bad_tag(reading: Reading, bytes: Seq<u8>, count: int)
    requires
        0 <= count <= bytes.len(),
        run(reading, bytes.subrange(0, count)).bad_tag.is_some(),
    ensures
        run(reading, bytes) == run(reading, bytes.subrange(0, count)),
    decreases bytes.len() - count,
{
    if count < bytes.len() {
        let more = bytes.subrange(0, count + 1);
        assert(more.drop_last() == bytes.subrange(0, count));
        lemma_nothing_is_read_after_a_bad_tag(reading, bytes, count + 1);
    } else {
        assert(bytes.subrange(0, count) == bytes);
    }
}

/// Reading one piece after another comes to the same as reading the two as
/// one, so it does not matter how the stream is cut into pieces.
pub proof fn lemma_pieces_do_not_matter(reading: Reading, first: Seq<u8>, second: Seq<u8>)
    ensures
        run(reading, first + second) == if run(reading, first).bad_tag.is_some() {
            run(reading, first)
        } else {
            Run {
                next: run(run(reading, first).next, second).next,
                updates: run(reading, first).updates + run(
                    run(reading, first).next,
                    second,
                ).updates,
                bad_tag: run(run(reading, first).next, second).bad_tag,
            }
        },
    decreases second.len(),
{
    let whole = first + second;
    if second.len() == 0 {
        assert(whole == first);
        assert(run(reading, first).updates + Seq::<WorldUpdate>::empty() == run(
            reading,
            first,
        ).updates);
    } else {
        assert(whole.drop_last() == first + second.drop_last());
        assert(whole.last() == second.last());
        lemma_pieces_do_not_matter(reading, first, second.drop_last());
        let head = run(reading, first);
        if head.bad_tag.is_none() {
            let tail = run(head.next, second.drop_last());
            if tail.bad_tag.is_none() {
                let last = step(tail.next, second.last());
                match last.update {
                    Some(update) => {
                        assert(head.updates + tail.updates.push(update) == (head.updates
                            + tail.updates).push(update));
                    },
                    None => {},
                }
            }
        }
    }
}

/// A reader between two items that gets the bytes of a block update hands
/// out that update and is between two items again.
pub proof fn lemma_update_round_trip(update: WorldUpdate, dynamic_size: nat)
    ensures
        run(between_items(dynamic_size), encoded(update)) == (Run {
            next: between_items(dynamic_size),
            updates: seq![update],
            bad_tag: None,
        }),
{
    let bytes = encoded(update);
    let start = between_items(dynamic_size);
    let b0 = bytes.subrange(0, 0);
    let b1 = bytes.subrange(0, 1);
    let b2 = bytes.subrange(0, 2);
    let b3 = bytes.subrange(0, 3);
    let b4 = bytes.subrange(0, 4);
    assert(b1.drop_last() == b0 && b1.last() == 0u8);
    assert(b2.drop_last() == b1 && b2.last() == update.chunk);
    assert(b3.drop_last() == b2 && b3.last() == update.column);
    assert(b4.drop_last() == b3 && b4.last() == update.block);
    assert(bytes.drop_last() == b4 && bytes.last() == update.new_kind);
    assert(run(start, b0).next == start);
    assert(run(start, b1).next == (Reading {
        state: StreamReadState::BlockUpdate,
        dynamic_size,
        data: Seq::empty(),
    }));
    assert(run(start, b2).next.data == seq![update.chunk]);
    assert(run(start, b3).next.data == seq![update.chunk, update.column]);
    assert(run(start, b4).next.data == seq![update.chunk, update.column, update.block]);
    assert(run(start, b4).updates == Seq::<WorldUpdate>::empty());
    assert(run(start, bytes).updates == seq![update]);
}

} // verus!
