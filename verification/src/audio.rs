//! Audio handling for voice control: the microphone samples are gathered
//! in a ring buffer and handed on, in overlapping chunks, to the wakeword
//! detector.

use vstd::prelude::*;
use circular_buffer::CircularBuffer;

verus! {

/// Samples per second of the microphone stream.
pub const SAMPLE_RATE: usize = 16000;

/// Length of one chunk given to the wakeword detector, in milliseconds.
pub const CHUNK_TIME_MILLISECONDS: usize = 2000;

/// Samples in one chunk given to the wakeword detector.
pub const CHUNK_SIZE: usize = SAMPLE_RATE * CHUNK_TIME_MILLISECONDS / 1000;

/// Samples between the starts of two consecutive chunks (half a chunk, so
/// consecutive chunks overlap by half).
pub const AUDIO_STEP_SIZE: usize = CHUNK_SIZE / 2;

/// How many chunks the sample ring buffer holds.
pub const AUDIO_BUFFER_MULTIPLE: usize = 2;

/// Capacity of the sample ring buffer.
pub const AUDIO_BUFFER_SIZE: usize = AUDIO_BUFFER_MULTIPLE * CHUNK_SIZE;

/// How many chunks may wait for the wakeword detector.
pub const CHUNK_BUFFER_MULTIPLE: usize = 5;

/// Makes `circular_buffer::CircularBuffer` known to Verus; its values are
/// opaque and are read only through `buffered_samples`.
#[verifier::external_type_specification]
#[verifier::external_body]
#[verifier::reject_recursive_types(T)]
pub struct ExCircularBuffer<const N: usize, T>(CircularBuffer<N, T>);

/// The samples held by the ring buffer, oldest first.
pub uninterp spec fn buffered_samples(buffer: CircularBuffer<64000, i16>) -> Seq<i16>;

/// The last `n` elements of `s`, or all of it when it is shorter.
pub open spec fn keep_last(s: Seq<i16>, n: nat) -> Seq<i16> {
    if s.len() <= n {
        s
    } else {
        s.skip(s.len() - n)
    }
}

/// Keeping the last `n` elements gives the newest `min(n, len)` elements,
/// in order.
pub proof fn lemma_keep_last(s: Seq<i16>, n: nat)
    ensures
        keep_last(s, n).len() == if s.len() <= n { s.len() } else { n },
        forall|i: int| 0 <= i < keep_last(s, n).len() ==> #[trigger] keep_last(s, n)[i]
            == s[s.len() - keep_last(s, n).len() + i],
{
}

/// Calls `CircularBuffer::new`, which makes an empty buffer.
#[verifier::external_body]
fn ring_new() -> (buffer: CircularBuffer<AUDIO_BUFFER_SIZE, i16>)
    ensures
        buffered_samples(buffer) == Seq::<i16>::empty(),
{
    CircularBuffer::new()
}

/// Calls `CircularBuffer::len`, the number of samples held.
#[verifier::external_body]
fn ring_len(buffer: &CircularBuffer<AUDIO_BUFFER_SIZE, i16>) -> (n: usize)
    ensures
        n == buffered_samples(*buffer).len(),
{
    buffer.len()
}

/// Calls `CircularBuffer::nth_front`: the sample at position `index` from
/// the oldest, when there is one.
#[verifier::external_body]
fn ring_nth_front(buffer: &CircularBuffer<AUDIO_BUFFER_SIZE, i16>, index: usize) -> (sample: Option<i16>)
    ensures
        index < buffered_samples(*buffer).len() ==> sample == Some(buffered_samples(*buffer)[index as int]),
        index >= buffered_samples(*buffer).len() ==> sample is None,
{
    buffer.nth_front(index).copied()
}

/// Calls `CircularBuffer::truncate_front`, which keeps only the newest
/// `len` samples (all of them when there are no more than `len`).
#[verifier::external_body]
fn ring_truncate_front(buffer: &mut CircularBuffer<AUDIO_BUFFER_SIZE, i16>, len: usize)
    ensures
        buffered_samples(*final(buffer)) == keep_last(buffered_samples(*old(buffer)), len as nat),
{
    buffer.truncate_front(len)
}

/// Calls `CircularBuffer::extend_from_slice`, which appends the samples and
/// drops the oldest ones beyond the capacity.
#[verifier::external_body]
fn ring_extend_from_slice(buffer: &mut CircularBuffer<AUDIO_BUFFER_SIZE, i16>, data: &[i16])
    ensures
        buffered_samples(*final(buffer)) == keep_last(
            buffered_samples(*old(buffer)) + data@,
            AUDIO_BUFFER_SIZE as nat,
        ),
{
    buffer.extend_from_slice(data)
}

/// The chunks cut from a run of samples: while more than a chunk's worth
/// is left, the first chunk's worth is cut and half a chunk is dropped.
pub open spec fn chunk_windows(s: Seq<i16>) -> Seq<Seq<i16>>
    decreases s.len(),
{
    if s.len() > CHUNK_SIZE {
        seq![s.take(CHUNK_SIZE as int)] + chunk_windows(s.skip(AUDIO_STEP_SIZE as int))
    } else {
        Seq::empty()
    }
}

/// The samples left over once the chunks are cut.
pub open spec fn chunk_remainder(s: Seq<i16>) -> Seq<i16>
    decreases s.len(),
{
    if s.len() > CHUNK_SIZE {
        chunk_remainder(s.skip(AUDIO_STEP_SIZE as int))
    } else {
        s
    }
}

proof fn lemma_sizes()
    ensures
        CHUNK_SIZE == 32000,
        AUDIO_STEP_SIZE == 16000,
        AUDIO_BUFFER_SIZE == 64000,
{
}

proof fn lemma_windows(s: Seq<i16>)
    ensures
        forall|i: int| 0 <= i < chunk_windows(s).len() ==> #[trigger] chunk_windows(s)[i] == s.subrange(
            i * AUDIO_STEP_SIZE,
            i * AUDIO_STEP_SIZE + CHUNK_SIZE,
        ) && i * AUDIO_STEP_SIZE + CHUNK_SIZE < s.len(),
    decreases s.len(),
{
    lemma_sizes();
    if s.len() > CHUNK_SIZE {
        let rest = s.skip(AUDIO_STEP_SIZE as int);
        lemma_windows(rest);
        let w = chunk_windows(s);
        let wr = chunk_windows(rest);
        assert forall|i: int| 0 <= i < w.len() implies #[trigger] w[i] == s.subrange(
            i * AUDIO_STEP_SIZE,
            i * AUDIO_STEP_SIZE + CHUNK_SIZE,
        ) && i * AUDIO_STEP_SIZE + CHUNK_SIZE < s.len() by {
            assert(w == seq![s.take(CHUNK_SIZE as int)] + wr);
            if i == 0 {
                assert(w[0] == s.take(CHUNK_SIZE as int));
                assert(0 * AUDIO_STEP_SIZE == 0);
                assert(s.take(CHUNK_SIZE as int) =~= s.subrange(0, CHUNK_SIZE as int));
            } else {
                let j = i - 1;
                assert(w[i] == wr[j]);
                assert(wr[j] == rest.subrange(j * AUDIO_STEP_SIZE, j * AUDIO_STEP_SIZE + CHUNK_SIZE));
                assert(j * AUDIO_STEP_SIZE + CHUNK_SIZE < rest.len());
                assert(j * AUDIO_STEP_SIZE + AUDIO_STEP_SIZE == i * AUDIO_STEP_SIZE) by (nonlinear_arith)
                    requires j == i - 1;
                assert(rest.subrange(j * AUDIO_STEP_SIZE, j * AUDIO_STEP_SIZE + CHUNK_SIZE)
                    =~= s.subrange(i * AUDIO_STEP_SIZE, i * AUDIO_STEP_SIZE + CHUNK_SIZE));
            }
        }
    }
}

proof fn lemma_remainder(s: Seq<i16>)
    ensures
        chunk_remainder(s) == s.skip(chunk_windows(s).len() * AUDIO_STEP_SIZE),
        chunk_remainder(s).len() <= CHUNK_SIZE,
    decreases s.len(),
{
    lemma_sizes();
    if s.len() > CHUNK_SIZE {
        let rest = s.skip(AUDIO_STEP_SIZE as int);
        lemma_remainder(rest);
        lemma_windows(rest);
        let w = chunk_windows(s);
        let wr = chunk_windows(rest);
        let k = wr.len() as int;
        assert(w.len() == k + 1);
        assert(w.len() * AUDIO_STEP_SIZE == k * AUDIO_STEP_SIZE + AUDIO_STEP_SIZE) by (nonlinear_arith)
            requires w.len() == k + 1;
        if k > 0 {
            assert(wr[k - 1] == wr[k - 1]);
            assert((k - 1) * AUDIO_STEP_SIZE + AUDIO_STEP_SIZE == k * AUDIO_STEP_SIZE) by (nonlinear_arith);
        }
        assert(k * AUDIO_STEP_SIZE <= rest.len());
        assert(rest.skip(k * AUDIO_STEP_SIZE) =~= s.skip(w.len() * AUDIO_STEP_SIZE));
    } else {
        assert(s.skip(0) =~= s);
    }
}

/// The chunks are the windows of `CHUNK_SIZE` samples that start every
/// `AUDIO_STEP_SIZE` samples, as long as a sample follows the window; what
/// is left over starts where the next window would start and holds at
/// most one chunk's worth of samples. So consecutive chunks share half
/// their samples.
#[verifier::spinoff_prover]
pub proof fn lemma_chunks_are_windows(s: Seq<i16>)
    ensures
        forall|i: int| 0 <= i < chunk_windows(s).len() ==> #[trigger] chunk_windows(s)[i] == s.subrange(
            i * AUDIO_STEP_SIZE,
            i * AUDIO_STEP_SIZE + CHUNK_SIZE,
        ) && i * AUDIO_STEP_SIZE + CHUNK_SIZE < s.len(),
        forall|i: int| 0 <= i < chunk_windows(s).len() ==> (#[trigger] chunk_windows(s)[i]).len() == CHUNK_SIZE,
        forall|i: int| 0 <= i < chunk_windows(s).len() - 1 ==> (#[trigger] chunk_windows(s)[i]).skip(AUDIO_STEP_SIZE as int)
            == chunk_windows(s)[i + 1].take((CHUNK_SIZE - AUDIO_STEP_SIZE) as int),
        chunk_remainder(s) == s.skip(chunk_windows(s).len() * AUDIO_STEP_SIZE),
        chunk_remainder(s).len() <= CHUNK_SIZE,
{
    lemma_windows(s);
    lemma_remainder(s);
    let w = chunk_windows(s);
    assert forall|i: int| 0 <= i < w.len() - 1 implies (#[trigger] w[i]).skip(AUDIO_STEP_SIZE as int)
        == w[i + 1].take((CHUNK_SIZE - AUDIO_STEP_SIZE) as int) by {
        assert(w[i + 1] == w[i + 1]);
        assert(i * AUDIO_STEP_SIZE + AUDIO_STEP_SIZE == (i + 1) * AUDIO_STEP_SIZE) by (nonlinear_arith);
        assert(w[i].skip(AUDIO_STEP_SIZE as int) =~= w[i + 1].take((CHUNK_SIZE - AUDIO_STEP_SIZE) as int));
    }
}

/// Cuts microphone samples into overlapping chunks for the wakeword
/// detector.
pub struct AudioChunker {
    buffer: CircularBuffer<AUDIO_BUFFER_SIZE, i16>,
}

impl AudioChunker {
    /// The samples waiting to be cut into a chunk, oldest first.
    pub closed spec fn pending(&self) -> Seq<i16> {
        buffered_samples(self.buffer)
    }

    /// A chunker holding no samples.
    pub fn new() -> (chunker: AudioChunker)
        ensures
            chunker.pending() == Seq::<i16>::empty(),
    {
        AudioChunker { buffer: ring_new() }
    }

    /// The number of samples waiting.
    pub fn pending_len(&self) -> (n: usize)
        ensures
            n == self.pending().len(),
    {
        ring_len(&self.buffer)
    }

    /// Adds newly captured samples (the buffer keeps at most
    /// `AUDIO_BUFFER_SIZE` of them, dropping the oldest) and cuts every
    /// chunk that is ready.
    pub fn push_samples(&mut self, data: &[i16]) -> (chunks: Vec<Vec<i16>>)
        ensures
            chunks@.map_values(|c: Vec<i16>| c@) == chunk_windows(
                keep_last(old(self).pending() + data@, AUDIO_BUFFER_SIZE as nat),
            ),
            final(self).pending() == chunk_remainder(
                keep_last(old(self).pending() + data@, AUDIO_BUFFER_SIZE as nat),
            ),
            final(self).pending().len() <= CHUNK_SIZE,
    {
        ring_extend_from_slice(&mut self.buffer, data);
        let ghost all = keep_last(old(self).pending() + data@, AUDIO_BUFFER_SIZE as nat);
        let mut chunks: Vec<Vec<i16>> = Vec::new();
        let mut len = ring_len(&self.buffer);
        assert(chunks@.map_values(|c: Vec<i16>| c@) + chunk_windows(buffered_samples(self.buffer)) =~= chunk_windows(all));
        while len > CHUNK_SIZE
            invariant
                len == buffered_samples(self.buffer).len(),
                len <= AUDIO_BUFFER_SIZE,
                chunk_windows(all) == chunks@.map_values(|c: Vec<i16>| c@) + chunk_windows(buffered_samples(self.buffer)),
                chunk_remainder(all) == chunk_remainder(buffered_samples(self.buffer)),
            decreases len,
        {
            let ghost cur = buffered_samples(self.buffer);
            let ghost before = chunks@.map_values(|c: Vec<i16>| c@);
            let mut chunk: Vec<i16> = Vec::new();
            let mut n: usize = 0;
            while n < CHUNK_SIZE
                invariant
                    cur == buffered_samples(self.buffer),
                    cur.len() > CHUNK_SIZE,
                    n <= CHUNK_SIZE,
                    chunk@ == cur.take(n as int),
                decreases CHUNK_SIZE - n,
            {
                let sample = match ring_nth_front(&self.buffer, n) {
                    Some(x) => x,
                    None => 0,
                };
                chunk.push(sample);
                assert(cur.take(n + 1) =~= cur.take(n as int).push(cur[n as int]));
                n = n + 1;
            }
            chunks.push(chunk);
            assert(chunks@.map_values(|c: Vec<i16>| c@) =~= before.push(cur.take(CHUNK_SIZE as int)));
            ring_truncate_front(&mut self.buffer, len - AUDIO_STEP_SIZE);
            assert(buffered_samples(self.buffer) =~= cur.skip(AUDIO_STEP_SIZE as int));
            assert(chunk_windows(cur) == seq![cur.take(CHUNK_SIZE as int)] + chunk_windows(cur.skip(AUDIO_STEP_SIZE as int)));
            assert(before + chunk_windows(cur) =~= before.push(cur.take(CHUNK_SIZE as int)) + chunk_windows(cur.skip(AUDIO_STEP_SIZE as int)));
            len = ring_len(&self.buffer);
        }
        assert(chunk_windows(buffered_samples(self.buffer)) =~= Seq::<Seq<i16>>::empty());
        assert(chunks@.map_values(|c: Vec<i16>| c@) + Seq::<Seq<i16>>::empty() =~= chunks@.map_values(|c: Vec<i16>| c@));
        proof {
            lemma_remainder(all);
        }
        chunks
    }
}

} // verus!
