use vstd::prelude::*;

use vstd::utf8::encode_utf8;

use crate::chunking::{
    ceil_div, chunk_sizes, lemma_chunk_count_and_sum, total_of, CHUNK_CAPACITY,
};
use crate::wire::{header_bytes, lemma_header_round_trip, parse_header};
use crate::TransferError;

verus! {

/// What a transfer has done so far: the content length announced in the
/// header, and the content bytes moved, in order.
pub struct TransferView {
    pub total: nat,
    pub moved: Seq<u8>,
}

/// The state of one side of a transfer: how many content bytes are
/// announced and how many have been moved from the source to the sink.
/// The side that drives it asks `next_request` how many bytes to read,
/// reads at most that many, hands them to `record`, and writes them on.
pub struct Transfer {
    total: u64,
    moved: u64,
    data: Ghost<Seq<u8>>,
}

impl View for Transfer {
    type V = TransferView;

    closed spec fn view(&self) -> TransferView {
        TransferView { total: self.total as nat, moved: self.data@ }
    }
}

/// Bytes still to move.
pub open spec fn remaining_of(v: TransferView) -> int {
    v.total - v.moved.len()
}

/// How many bytes the next step asks for: a full chunk, or what is left
/// where that is less.
pub open spec fn request_size(v: TransferView) -> nat {
    if remaining_of(v) <= 0 {
        0
    } else if remaining_of(v) < CHUNK_CAPACITY {
        remaining_of(v) as nat
    } else {
        CHUNK_CAPACITY as nat
    }
}

/// The state after a step that moved `chunk`. A step fails, and changes
/// nothing, where the source gave no bytes although content is left.
pub open spec fn step(v: TransferView, chunk: Seq<u8>) -> Option<TransferView> {
    if chunk.len() == 0 && request_size(v) > 0 {
        None
    } else {
        Some(TransferView { total: v.total, moved: v.moved + chunk })
    }
}

/// The state after a series of steps, or `None` where one of them fails or
/// is handed more bytes than it asked for.
pub open spec fn run(v: TransferView, chunks: Seq<Seq<u8>>) -> Option<TransferView>
    decreases chunks.len(),
{
    if chunks.len() == 0 {
        Some(v)
    } else if chunks[0].len() > request_size(v) {
        None
    } else {
        match step(v, chunks[0]) {
            Some(w) => run(w, chunks.drop_first()),
            None => None,
        }
    }
}

/// The bytes of all `chunks`, one after the other.
pub open spec fn concat(chunks: Seq<Seq<u8>>) -> Seq<u8>
    decreases chunks.len(),
{
    if chunks.len() == 0 {
        seq![]
    } else {
        chunks[0] + concat(chunks.drop_first())
    }
}

/// True where each of `chunks` fills the request of its step, and the
/// transfer is complete after the last.
pub open spec fn full_steps(v: TransferView, chunks: Seq<Seq<u8>>) -> bool
    decreases chunks.len(),
{
    if chunks.len() == 0 {
        remaining_of(v) == 0
    } else {
        chunks[0].len() == request_size(v) && request_size(v) > 0 && full_steps(
            TransferView { total: v.total, moved: v.moved + chunks[0] },
            chunks.drop_first(),
        )
    }
}

impl Transfer {
    #[verifier::type_invariant]
    spec fn inv(&self) -> bool {
        &&& self.moved == self.data@.len()
        &&& self.moved <= self.total
    }

    /// A transfer of `content_length` bytes with nothing moved yet.
    pub fn new(content_length: u64) -> (r: Transfer)
        ensures
            r@ == (TransferView { total: content_length as nat, moved: Seq::empty() }),
    {
        Transfer { total: content_length, moved: 0, data: Ghost(Seq::empty()) }
    }

    /// The announced content length.
    pub fn content_length(&self) -> (r: u64)
        ensures
            r == self@.total,
    {
        self.total
    }

    /// How many content bytes have been moved.
    pub fn bytes_moved(&self) -> (r: u64)
        ensures
            r == self@.moved.len(),
    {
        proof {
            use_type_invariant(self);
        }
        self.moved
    }

    /// How many content bytes are still to move.
    pub fn remaining(&self) -> (r: u64)
        ensures
            r == remaining_of(self@),
    {
        proof {
            use_type_invariant(self);
        }
        self.total - self.moved
    }

    /// Whether every announced byte has been moved.
    pub fn is_complete(&self) -> (r: bool)
        ensures
            r == (remaining_of(self@) == 0),
    {
        proof {
            use_type_invariant(self);
        }
        self.moved == self.total
    }

    /// How many bytes to read for the next step; zero once complete.
    pub fn next_request(&self) -> (r: usize)
        ensures
            r == request_size(self@),
    {
        proof {
            use_type_invariant(self);
        }
        let left = self.total - self.moved;
        if left < CHUNK_CAPACITY {
            left as usize
        } else {
            CHUNK_CAPACITY as usize
        }
    }

    /// Records the bytes that one step moved. Fails with `Io`, changing
    /// nothing, where no bytes came although content is left: the source
    /// ended before the announced length.
    pub fn record(&mut self, chunk: &[u8]) -> (r: Result<(), TransferError>)
        requires
            chunk@.len() <= request_size(old(self)@),
        ensures
            match step(old(self)@, chunk@) {
                Some(v) => r is Ok && final(self)@ == v,
                None => r == Err::<(), TransferError>(TransferError::Io) && final(self)@ == old(
                    self,
                )@,
            },
    {
        proof {
            use_type_invariant(&*self);
        }
        if chunk.len() == 0 && self.moved < self.total {
            return Err(TransferError::Io);
        }
        *self = Transfer {
            total: self.total,
            moved: self.moved + chunk.len() as u64,
            data: Ghost(self.data@ + chunk@),
        };
        Ok(())
    }
}


/// The sizes of `chunks`, in order.
pub open spec fn sizes_of(chunks: Seq<Seq<u8>>) -> Seq<nat> {
    chunks.map_values(|c: Seq<u8>| c.len())
}

/// Feeding the remaining content in any non-empty pieces of at most a
/// chunk each moves exactly that content, and nothing else.
pub proof fn lemma_pieces_reassemble(v: TransferView, content: Seq<u8>, chunks: Seq<Seq<u8>>)
    requires
        remaining_of(v) == content.len(),
        concat(chunks) == content,
        forall|i: int| 0 <= i < chunks.len() ==> 0 < #[trigger] chunks[i].len() <= CHUNK_CAPACITY,
    ensures
        run(v, chunks) == Some(TransferView { total: v.total, moved: v.moved + content }),
    decreases chunks.len(),
{
    if chunks.len() == 0 {
        assert(v.moved + content =~= v.moved);
    } else {
        let first = chunks[0];
        let rest = chunks.drop_first();
        let w = TransferView { total: v.total, moved: v.moved + first };
        assert(content =~= first + concat(rest));
        assert(first.len() <= request_size(v));
        assert forall|i: int| 0 <= i < rest.len() implies 0 < #[trigger] rest[i].len()
            <= CHUNK_CAPACITY by {
            assert(rest[i] == chunks[i + 1]);
        }
        lemma_pieces_reassemble(w, concat(rest), rest);
        assert(w.moved + concat(rest) =~= v.moved + content);
    }
}

/// A receiver that reads the header of `name` and `content`, and then the
/// content in any non-empty pieces of at most a chunk each, learns the name
/// and the length, finds the content right after the header, and moves
/// exactly the content, after which the transfer is complete.
pub proof fn lemma_received_file_matches(name: Seq<char>, content: Seq<u8>, chunks: Seq<Seq<u8>>)
    requires
        encode_utf8(name).len() <= u64::MAX,
        content.len() <= u64::MAX,
        concat(chunks) == content,
        forall|i: int| 0 <= i < chunks.len() ==> 0 < #[trigger] chunks[i].len() <= CHUNK_CAPACITY,
    ensures
        ({
            let header = header_bytes(name, content.len() as u64);
            let stream = header + content;
            &&& parse_header(stream) == Some((name, content.len() as u64, header.len() as int))
            &&& stream.subrange(header.len() as int, stream.len() as int) == content
        }),
        run(TransferView { total: content.len(), moved: Seq::empty() }, chunks) == Some(
            TransferView { total: content.len(), moved: content },
        ),
{
    let header = header_bytes(name, content.len() as u64);
    lemma_header_round_trip(name, content.len() as u64, content);
    assert((header + content).subrange(header.len() as int, (header + content).len() as int)
        =~= content);
    let start = TransferView { total: content.len(), moved: Seq::empty() };
    lemma_pieces_reassemble(start, content, chunks);
    assert(Seq::<u8>::empty() + content =~= content);
}

/// Where every read fills its request, the pieces have exactly the sizes
/// of `chunk_sizes` over what remained, and they move all of it.
pub proof fn lemma_full_steps_sizes(v: TransferView, chunks: Seq<Seq<u8>>)
    requires
        remaining_of(v) >= 0,
        full_steps(v, chunks),
    ensures
        sizes_of(chunks) == chunk_sizes(remaining_of(v) as nat, CHUNK_CAPACITY as nat),
        run(v, chunks) == Some(TransferView { total: v.total, moved: v.moved + concat(chunks) }),
    decreases chunks.len(),
{
    let r = remaining_of(v) as nat;
    if chunks.len() == 0 {
        assert(sizes_of(chunks) =~= seq![]);
        assert(v.moved + concat(chunks) =~= v.moved);
    } else {
        let first = chunks[0];
        let rest = chunks.drop_first();
        let w = TransferView { total: v.total, moved: v.moved + first };
        lemma_full_steps_sizes(w, rest);
        assert(remaining_of(w) == r - first.len());
        assert(sizes_of(chunks) =~= seq![first.len()] + sizes_of(rest));
        assert(w.moved + concat(rest) =~= v.moved + concat(chunks));
    }
}

/// A sender whose every file read fills its request writes
/// `ceil(total / CHUNK_CAPACITY)` pieces, whose sizes add up to `total`,
/// and completes the transfer; with no content it writes none.
pub proof fn lemma_sender_writes(total: nat, chunks: Seq<Seq<u8>>)
    requires
        full_steps(TransferView { total, moved: Seq::empty() }, chunks),
    ensures
        chunks.len() == ceil_div(total, CHUNK_CAPACITY as nat),
        total_of(sizes_of(chunks)) == total,
        concat(chunks).len() == total,
        run(TransferView { total, moved: Seq::empty() }, chunks) == Some(
            TransferView { total, moved: concat(chunks) },
        ),
        total == 0 ==> chunks.len() == 0,
{
    let start = TransferView { total, moved: Seq::empty() };
    lemma_full_steps_sizes(start, chunks);
    lemma_chunk_count_and_sum(total, CHUNK_CAPACITY as nat);
    assert(Seq::<u8>::empty() + concat(chunks) =~= concat(chunks));
    lemma_full_steps_complete(start, chunks);
}

/// A run of full steps ends with everything moved.
proof fn lemma_full_steps_complete(v: TransferView, chunks: Seq<Seq<u8>>)
    requires
        remaining_of(v) >= 0,
        full_steps(v, chunks),
    ensures
        v.moved.len() + concat(chunks).len() == v.total,
    decreases chunks.len(),
{
    if chunks.len() > 0 {
        let w = TransferView { total: v.total, moved: v.moved + chunks[0] };
        lemma_full_steps_complete(w, chunks.drop_first());
    }
}

} // verus!
