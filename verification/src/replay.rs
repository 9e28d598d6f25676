//! Recent terminal output, kept for viewers that join later.
use std::collections::VecDeque;
use vstd::prelude::*;
use crate::text::bytes_copy;

verus! {

/// How many bytes of output a replay buffer keeps at most.
pub const REPLAY_LIMIT_BYTES: usize = 32 * 1024 * 1024;

/// How many bytes of output a joining viewer is sent, unless a single chunk is larger.
pub const INITIAL_REPLAY_LIMIT_BYTES: usize = 4 * 1024 * 1024;

/// What a list of byte chunks holds.
pub open spec fn chunk_views(chunks: Seq<Vec<u8>>) -> Seq<Seq<u8>> {
    Seq::new(chunks.len(), |i: int| chunks[i]@)
}

/// How many bytes the chunks hold together.
pub open spec fn total(chunks: Seq<Seq<u8>>) -> nat
    decreases chunks.len(),
{
    if chunks.len() == 0 {
        0
    } else {
        total(chunks.drop_last()) + chunks.last().len()
    }
}

/// The chunks one behind the other.
pub open spec fn joined(chunks: Seq<Seq<u8>>) -> Seq<u8>
    decreases chunks.len(),
{
    if chunks.len() == 0 {
        seq![]
    } else {
        joined(chunks.drop_last()) + chunks.last()
    }
}

/// The newest chunks that hold at most `limit` bytes together.
pub open spec fn newest(chunks: Seq<Seq<u8>>, limit: nat) -> Seq<Seq<u8>>
    decreases chunks.len(),
{
    if total(chunks) <= limit || chunks.len() == 0 {
        chunks
    } else {
        newest(chunks.drop_first(), limit)
    }
}

/// Where the chunks start that a viewer is sent, if those from `n` on, `bytes` in all, are.
pub open spec fn tail_start(chunks: Seq<Seq<u8>>, n: int, bytes: nat, max: nat) -> int
    decreases n,
{
    if n <= 0 {
        0
    } else if n < chunks.len() && (bytes >= max || bytes + chunks[n - 1].len() > max) {
        n
    } else {
        tail_start(chunks, n - 1, bytes + chunks[n - 1].len(), max)
    }
}

/// The newest chunk and, before it, as many more as fit into `max` bytes.
pub open spec fn tail(chunks: Seq<Seq<u8>>, max: nat) -> Seq<Seq<u8>> {
    chunks.skip(tail_start(chunks, chunks.len() as int, 0, max))
}

proof fn lemma_total_split(chunks: Seq<Seq<u8>>, k: int)
    requires
        0 <= k <= chunks.len(),
    ensures
        total(chunks) == total(chunks.take(k)) + total(chunks.skip(k)),
    decreases chunks.len(),
{
    if k == chunks.len() {
        assert(chunks.take(k) == chunks);
    } else {
        lemma_total_split(chunks.drop_last(), k);
        assert(chunks.drop_last().take(k) == chunks.take(k));
        assert(chunks.drop_last().skip(k) == chunks.skip(k).drop_last());
        assert(chunks.skip(k).last() == chunks.last());
    }
}

proof fn lemma_total_first(chunks: Seq<Seq<u8>>)
    requires
        chunks.len() > 0,
    ensures
        total(chunks) == chunks[0].len() + total(chunks.drop_first()),
{
    lemma_total_split(chunks, 1);
    assert(chunks.skip(1) == chunks.drop_first());
    assert(chunks.take(1).drop_last() == Seq::<Seq<u8>>::empty());
    assert(total(chunks.take(1).drop_last()) == 0);
}

/// Recent output in the chunks in which it came, oldest first.
pub struct ReplayBuffer {
    chunks: VecDeque<Vec<u8>>,
    bytes: usize,
}

impl View for ReplayBuffer {
    type V = Seq<Seq<u8>>;

    closed spec fn view(&self) -> Seq<Seq<u8>> {
        chunk_views(self.chunks@)
    }
}

impl ReplayBuffer {
    #[verifier::type_invariant]
    spec fn counted(self) -> bool {
        &&& self.bytes == total(chunk_views(self.chunks@))
        &&& self.bytes <= REPLAY_LIMIT_BYTES
    }

    /// An empty buffer.
    pub fn new() -> (res: Self)
        ensures
            res@ == Seq::<Seq<u8>>::empty(),
    {
        ReplayBuffer { chunks: VecDeque::new(), bytes: 0 }
    }

    /// Adds a chunk and drops the oldest ones until the limit is kept.
    pub fn push(&mut self, chunk: Vec<u8>)
        ensures
            final(self)@ == newest(old(self)@.push(chunk@), REPLAY_LIMIT_BYTES as nat),
    {
        proof {
            use_type_invariant(&*self);
        }
        let ghost all = self@.push(chunk@);
        assert(all.drop_last() == self@);
        if chunk.len() > REPLAY_LIMIT_BYTES {
            proof {
                lemma_newest_none(all, REPLAY_LIMIT_BYTES as nat);
            }
            *self = ReplayBuffer::new();
            return;
        }
        let mut fresh = ReplayBuffer::new();
        core::mem::swap(&mut fresh, self);
        let ReplayBuffer { mut chunks, mut bytes } = fresh;
        bytes = bytes + chunk.len();
        chunks.push_back(chunk);
        assert(chunk_views(chunks@) == all);
        while bytes > REPLAY_LIMIT_BYTES
            invariant
                bytes == total(chunk_views(chunks@)),
                newest(all, REPLAY_LIMIT_BYTES as nat) == newest(
                    chunk_views(chunks@),
                    REPLAY_LIMIT_BYTES as nat,
                ),
            decreases chunks@.len(),
        {
            let ghost held = chunk_views(chunks@);
            assert(chunks@.len() > 0) by {
                if chunks@.len() == 0 {
                    assert(total(held) == 0);
                }
            }
            let old = chunks.pop_front().unwrap();
            proof {
                lemma_total_first(held);
                assert(chunk_views(chunks@) == held.drop_first());
            }
            bytes = bytes - old.len();
        }
        *self = ReplayBuffer { chunks, bytes };
    }

    /// Forgets what is held and holds `chunk` instead.
    pub fn replace(&mut self, chunk: Vec<u8>)
        ensures
            final(self)@ == newest(seq![chunk@], REPLAY_LIMIT_BYTES as nat),
    {
        *self = ReplayBuffer::new();
        assert(self@.push(chunk@) == seq![chunk@]);
        self.push(chunk);
    }

    /// Adds chunks one by one.
    pub fn push_all(&mut self, chunks: &Vec<Vec<u8>>)
        ensures
            final(self)@ == pushed(old(self)@, chunk_views(chunks@)),
    {
        let ghost all = chunk_views(chunks@);
        let mut i: usize = 0;
        assert(all.skip(0) == all);
        while i < chunks.len()
            invariant
                all == chunk_views(chunks@),
                0 <= i <= chunks@.len(),
                pushed(old(self)@, all) == pushed(self@, all.skip(i as int)),
            decreases chunks@.len() - i,
        {
            assert(all.skip(i as int)[0] == chunks@[i as int]@);
            assert(all.skip(i as int).skip(1) == all.skip(i + 1));
            self.push(chunks[i].clone());
            i += 1;
        }
    }

    /// The newest chunks, oldest first: at most `max_bytes` in all, or a single chunk.
    pub fn tail_chunks(&self, max_bytes: usize) -> (res: Vec<Vec<u8>>)
        ensures
            chunk_views(res@) == tail(self@, max_bytes as nat),
    {
        proof {
            use_type_invariant(self);
        }
        let count: usize = self.chunks.len();
        let mut start: usize = count;
        let mut bytes: usize = 0;
        assert(self@.skip(count as int) == Seq::<Seq<u8>>::empty());
        while start > 0
            invariant_except_break
                tail_start(self@, count as int, 0, max_bytes as nat) == tail_start(
                    self@,
                    start as int,
                    bytes as nat,
                    max_bytes as nat,
                ),
            invariant
                count == self@.len(),
                count == self.chunks@.len(),
                self@ == chunk_views(self.chunks@),
                total(self@) <= REPLAY_LIMIT_BYTES,
                0 <= start <= count,
                bytes == total(self@.skip(start as int)),
            ensures
                start == tail_start(self@, count as int, 0, max_bytes as nat),
            decreases start,
        {
            let size: usize = self.chunks[start - 1].len();
            proof {
                lemma_total_split(self@, start - 1);
                lemma_total_first(self@.skip(start - 1));
                assert(self@.skip(start - 1).drop_first() == self@.skip(start as int));
            }
            if start < count && (bytes >= max_bytes || bytes + size > max_bytes) {
                break;
            }
            bytes = bytes + size;
            start -= 1;
        }
        let mut selected: Vec<Vec<u8>> = Vec::new();
        let mut i: usize = start;
        while i < count
            invariant
                count == self.chunks@.len(),
                self@ == chunk_views(self.chunks@),
                start <= i <= count,
                chunk_views(selected@) == self@.subrange(start as int, i as int),
            decreases count - i,
        {
            let chunk = bytes_copy(self.chunks[i].as_slice());
            let ghost before = chunk_views(selected@);
            selected.push(chunk);
            assert(chunk_views(selected@) == before.push(self@[i as int]));
            assert(self@.subrange(start as int, i + 1) == self@.subrange(
                start as int,
                i as int,
            ).push(self@[i as int]));
            i += 1;
        }
        assert(self@.subrange(start as int, count as int) == self@.skip(start as int));
        selected
    }
}

proof fn lemma_newest_none(chunks: Seq<Seq<u8>>, limit: nat)
    requires
        chunks.len() > 0,
        chunks.last().len() > limit,
    ensures
        newest(chunks, limit) == Seq::<Seq<u8>>::empty(),
    decreases chunks.len(),
{
    if chunks.len() == 1 {
        assert(chunks.drop_first() == Seq::<Seq<u8>>::empty());
        assert(newest(chunks.drop_first(), limit) == chunks.drop_first());
    } else {
        lemma_newest_none(chunks.drop_first(), limit);
    }
}

/// What is kept of the output is its newest part: a suffix that holds at most `limit` bytes, and
/// one chunk more would not fit.
pub proof fn law_newest_is_longest_suffix(chunks: Seq<Seq<u8>>, limit: nat)
    ensures
        newest(chunks, limit).len() <= chunks.len(),
        newest(chunks, limit) == chunks.skip(chunks.len() - newest(chunks, limit).len()),
        total(newest(chunks, limit)) <= limit,
        newest(chunks, limit).len() < chunks.len() ==> total(
            chunks.skip(chunks.len() - newest(chunks, limit).len() - 1),
        ) > limit,
    decreases chunks.len(),
{
    if total(chunks) <= limit || chunks.len() == 0 {
        assert(chunks.skip(0) == chunks);
    } else {
        let rest = chunks.drop_first();
        let kept = newest(rest, limit);
        law_newest_is_longest_suffix(rest, limit);
        assert(rest.skip(rest.len() - kept.len()) == chunks.skip(chunks.len() - kept.len()));
        if kept.len() < rest.len() {
            assert(rest.skip(rest.len() - kept.len() - 1) == chunks.skip(
                chunks.len() - kept.len() - 1,
            ));
        } else {
            assert(chunks.skip(0) == chunks);
        }
    }
}

/// Output that fits beside what is held is kept whole.
pub proof fn law_push_keeps_what_fits(chunks: Seq<Seq<u8>>, chunk: Seq<u8>, limit: nat)
    requires
        total(chunks) + chunk.len() <= limit,
    ensures
        newest(chunks.push(chunk), limit) == chunks.push(chunk),
{
    assert(chunks.push(chunk).drop_last() == chunks);
}

proof fn lemma_tail_start(chunks: Seq<Seq<u8>>, n: int, bytes: nat, max: nat)
    requires
        0 <= n <= chunks.len(),
        bytes == total(chunks.skip(n)),
        n < chunks.len() - 1 ==> bytes <= max,
    ensures
        ({
            let start = tail_start(chunks, n, bytes, max);
            &&& 0 <= start <= n
            &&& n == chunks.len() > 0 ==> start < n
            &&& start < chunks.len() - 1 ==> total(chunks.skip(start)) <= max
            &&& 0 < start < chunks.len() ==> total(chunks.skip(start)) >= max || total(
                chunks.skip(start - 1),
            ) > max
        }),
    decreases n,
{
    if n > 0 {
        lemma_total_first(chunks.skip(n - 1));
        assert(chunks.skip(n - 1).drop_first() == chunks.skip(n));
        if !(n < chunks.len() && (bytes >= max || bytes + chunks[n - 1].len() > max)) {
            lemma_tail_start(chunks, n - 1, bytes + chunks[n - 1].len(), max);
        }
    }
}

/// A joining viewer is sent the newest part of the output: the last chunk whole, at most `max`
/// bytes unless that chunk alone is larger, and as many chunks as fit.
pub proof fn law_tail_is_recent(chunks: Seq<Seq<u8>>, max: nat)
    ensures
        tail(chunks, max).len() <= chunks.len(),
        tail(chunks, max) == chunks.skip(chunks.len() - tail(chunks, max).len()),
        chunks.len() > 0 ==> tail(chunks, max).len() > 0,
        tail(chunks, max).len() > 1 ==> total(tail(chunks, max)) <= max,
        0 < tail(chunks, max).len() < chunks.len() ==> total(tail(chunks, max)) >= max || total(
            chunks.skip(chunks.len() - tail(chunks, max).len() - 1),
        ) > max,
{
    assert(chunks.skip(chunks.len() as int) == Seq::<Seq<u8>>::empty());
    assert(total(chunks.skip(chunks.len() as int)) == 0);
    lemma_tail_start(chunks, chunks.len() as int, 0, max);
}

/// All of the output is sent to a joining viewer where it fits.
pub proof fn law_tail_of_short_output(chunks: Seq<Seq<u8>>, max: nat)
    requires
        total(chunks) < max,
    ensures
        tail(chunks, max) == chunks,
{
    law_tail_is_recent(chunks, max);
    let n = chunks.len() - tail(chunks, max).len();
    if n > 0 && n < chunks.len() {
        lemma_total_split(chunks, n);
        lemma_total_split(chunks, n - 1);
    }
    assert(chunks.skip(0) == chunks);
}

/// What is held after `chunks` were added one by one to `held`.
pub open spec fn pushed(held: Seq<Seq<u8>>, chunks: Seq<Seq<u8>>) -> Seq<Seq<u8>>
    decreases chunks.len(),
{
    if chunks.len() == 0 {
        held
    } else {
        pushed(newest(held.push(chunks[0]), REPLAY_LIMIT_BYTES as nat), chunks.skip(1))
    }
}

proof fn lemma_newest_push(chunks: Seq<Seq<u8>>, chunk: Seq<u8>, limit: nat)
    ensures
        newest(newest(chunks, limit).push(chunk), limit) == newest(chunks.push(chunk), limit),
    decreases chunks.len(),
{
    if total(chunks) > limit && chunks.len() > 0 {
        lemma_newest_push(chunks.drop_first(), chunk, limit);
        assert(chunks.push(chunk).drop_last() == chunks);
        assert(chunks.push(chunk).drop_first() == chunks.drop_first().push(chunk));
    }
}

/// Whatever was put out, what is held is the newest part of all of it.
pub proof fn law_held_is_newest_of_all(before: Seq<Seq<u8>>, chunks: Seq<Seq<u8>>)
    ensures
        pushed(newest(before, REPLAY_LIMIT_BYTES as nat), chunks) == newest(
            before + chunks,
            REPLAY_LIMIT_BYTES as nat,
        ),
    decreases chunks.len(),
{
    if chunks.len() == 0 {
        assert(before + chunks == before);
    } else {
        lemma_newest_push(before, chunks[0], REPLAY_LIMIT_BYTES as nat);
        law_held_is_newest_of_all(before.push(chunks[0]), chunks.skip(1));
        assert(before.push(chunks[0]) + chunks.skip(1) == before + chunks);
    }
}

} // verus!
