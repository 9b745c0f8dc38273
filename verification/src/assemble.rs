//! Assembling an elementary stream: the bytes of the initialization
//! segment followed by the bytes of each chunk, in the order given, with
//! nothing added, removed or changed.

use vstd::prelude::*;

verus! {

/// The number of bytes in all the segments together.
pub open spec fn total_len(segments: Seq<Seq<u8>>) -> nat
    decreases segments.len(),
{
    if segments.len() == 0 {
        0
    } else {
        total_len(segments.drop_last()) + segments.last().len()
    }
}

/// The assembled stream: the initialization segment, then every chunk in
/// turn.
pub open spec fn assembled(init: Seq<u8>, chunks: Seq<Seq<u8>>) -> Seq<u8> {
    init + chunks.flatten()
}

/// The assembled stream is as long as its segments together.
pub proof fn lemma_assembled_len(init: Seq<u8>, chunks: Seq<Seq<u8>>)
    ensures
        assembled(init, chunks).len() == init.len() + total_len(chunks),
    decreases chunks.len(),
{
    if chunks.len() == 0 {
        assert(chunks.flatten() =~= Seq::<u8>::empty());
    } else {
        lemma_assembled_len(init, chunks.drop_last());
        chunks.drop_last().lemma_flatten_push(chunks.last());
        assert(chunks.drop_last().push(chunks.last()) =~= chunks);
    }
}

/// Assembling the chunks one after the other gives the same stream as
/// assembling them at once.
pub proof fn lemma_assembled_push(init: Seq<u8>, chunks: Seq<Seq<u8>>, next: Seq<u8>)
    ensures
        assembled(init, chunks.push(next)) == assembled(init, chunks) + next,
{
    chunks.lemma_flatten_push(next);
    assert(init + (chunks.flatten() + next) =~= (init + chunks.flatten()) + next);
}

/// Appends one segment to a stream, byte for byte.
pub fn append_segment(stream: &mut Vec<u8>, segment: &Vec<u8>)
    ensures
        final(stream)@ == old(stream)@ + segment@,
{
    stream.extend_from_slice(segment.as_slice());
    assert(stream@ =~= old(stream)@ + segment@);
}

/// Builds the stream of an initialization segment and its chunks, in the
/// order in which the chunks are given.
pub fn assemble_stream(init: &Vec<u8>, chunks: &Vec<Vec<u8>>) -> (stream: Vec<u8>)
    ensures
        stream@ == assembled(init@, chunks.deep_view()),
        stream.len() == init.len() + total_len(chunks.deep_view()),
{
    let mut stream: Vec<u8> = Vec::new();
    append_segment(&mut stream, init);
    let n: usize = chunks.len();
    let mut i: usize = 0;
    assert(chunks.deep_view().take(0).flatten() =~= Seq::<u8>::empty());
    assert(stream@ =~= assembled(init@, chunks.deep_view().take(0)));
    while i < n
        invariant
            i <= n,
            n == chunks.len(),
            stream@ == assembled(init@, chunks.deep_view().take(i as int)),
        decreases n - i,
    {
        append_segment(&mut stream, &chunks[i]);
        proof {
            let done = chunks.deep_view().take(i as int);
            assert(chunks[i as int].deep_view() =~= chunks[i as int]@);
            assert(chunks.deep_view().take(i + 1) =~= done.push(chunks[i as int]@));
            lemma_assembled_push(init@, done, chunks[i as int]@);
        }
        i += 1;
    }
    proof {
        assert(chunks.deep_view().take(n as int) =~= chunks.deep_view());
        lemma_assembled_len(init@, chunks.deep_view());
    }
    stream
}

} // verus!
