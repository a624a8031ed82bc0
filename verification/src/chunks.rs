//! Content in chunks: a payload is cut into pieces that each fit one message,
//! and the pieces joined in order give the payload back.

use vstd::prelude::*;

verus! {

/// The chunks joined in order.
pub open spec fn flat(chunks: Seq<Seq<u8>>) -> Seq<u8>
    decreases chunks.len(),
{
    if chunks.len() == 0 {
        Seq::empty()
    } else {
        chunks[0] + flat(chunks.drop_first())
    }
}

/// `content` cut into chunks of `budget` bytes, the last one holding what is
/// left. There is always at least one chunk; it is empty only where the
/// content is.
pub open spec fn chunks_of(content: Seq<u8>, budget: nat) -> Seq<Seq<u8>>
    decreases content.len(),
{
    if content.len() <= budget || budget == 0 {
        seq![content]
    } else {
        seq![content.take(budget as int)] + chunks_of(content.skip(budget as int), budget)
    }
}

/// The chunks that a sequence of vectors holds.
pub open spec fn chunks_view(chunks: Seq<Vec<u8>>) -> Seq<Seq<u8>> {
    Seq::new(chunks.len(), |i: int| chunks[i]@)
}

/// Joining what was cut gives the content back.
pub proof fn lemma_flat_chunks(content: Seq<u8>, budget: nat)
    ensures
        flat(chunks_of(content, budget)) == content,
    decreases content.len(),
{
    let chunks = chunks_of(content, budget);
    if content.len() <= budget || budget == 0 {
        assert(chunks.drop_first() =~= Seq::<Seq<u8>>::empty());
        assert(flat(chunks.drop_first()) =~= Seq::<u8>::empty());
        assert(flat(chunks) =~= content);
    } else {
        let rest = content.skip(budget as int);
        lemma_flat_chunks(rest, budget);
        assert(chunks.drop_first() =~= chunks_of(rest, budget));
        assert(flat(chunks) =~= content.take(budget as int) + rest);
        assert(content.take(budget as int) + rest =~= content);
    }
}

/// Every chunk fits the budget, and there is at least one.
pub proof fn lemma_chunks_fit(content: Seq<u8>, budget: nat)
    requires
        budget > 0,
    ensures
        chunks_of(content, budget).len() >= 1,
        forall|i: int|
            0 <= i < chunks_of(content, budget).len() ==> (#[trigger] chunks_of(
                content,
                budget,
            )[i]).len() <= budget,
    decreases content.len(),
{
    if content.len() > budget {
        let rest = content.skip(budget as int);
        lemma_chunks_fit(rest, budget);
        let chunks = chunks_of(content, budget);
        assert forall|i: int| 0 <= i < chunks.len() implies (#[trigger] chunks[i]).len()
            <= budget by {
            if i > 0 {
                assert(chunks[i] == chunks_of(rest, budget)[i - 1]);
            }
        }
    }
}

/// Joining more chunks appends their bytes.
pub proof fn lemma_flat_push(chunks: Seq<Seq<u8>>, last: Seq<u8>)
    ensures
        flat(chunks.push(last)) == flat(chunks) + last,
    decreases chunks.len(),
{
    if chunks.len() == 0 {
        assert(chunks.push(last).drop_first() =~= Seq::<Seq<u8>>::empty());
        assert(flat(chunks.push(last).drop_first()) =~= Seq::<u8>::empty());
        assert(flat(chunks.push(last)) =~= last);
        assert(flat(chunks) + last =~= last);
    } else {
        assert(chunks.push(last).drop_first() =~= chunks.drop_first().push(last));
        lemma_flat_push(chunks.drop_first(), last);
        assert(flat(chunks.push(last)) =~= flat(chunks) + last);
    }
}

/// Cuts `content` into chunks of at most `budget` bytes.
pub fn split_chunks(content: &[u8], budget: usize) -> (chunks: Vec<Vec<u8>>)
    requires
        budget > 0,
    ensures
        chunks_view(chunks@) == chunks_of(content@, budget as nat),
{
    let mut chunks: Vec<Vec<u8>> = Vec::new();
    let mut pos: usize = 0;
    assert(content@.skip(0) =~= content@);
    while content.len() - pos > budget
        invariant
            budget > 0,
            pos <= content@.len(),
            chunks_view(chunks@) + chunks_of(content@.skip(pos as int), budget as nat)
                == chunks_of(content@, budget as nat),
        decreases content@.len() - pos,
    {
        let ghost rest = content@.skip(pos as int);
        let ghost before = chunks_view(chunks@);
        let piece = crate::bytes::to_vec(&content[pos..pos + budget]);
        assert(piece@ =~= rest.take(budget as int));
        assert(rest.skip(budget as int) =~= content@.skip(pos + budget));
        chunks.push(piece);
        assert(chunks_view(chunks@) =~= before.push(piece@));
        assert(before.push(piece@) + chunks_of(content@.skip(pos + budget), budget as nat)
            =~= before + chunks_of(rest, budget as nat));
        pos += budget;
    }
    let ghost rest = content@.skip(pos as int);
    let ghost before = chunks_view(chunks@);
    let piece = crate::bytes::to_vec(&content[pos..content.len()]);
    assert(piece@ =~= rest);
    chunks.push(piece);
    assert(chunks_view(chunks@) =~= before.push(piece@));
    assert(before.push(piece@) =~= before + chunks_of(rest, budget as nat));
    chunks
}

/// Joins the chunks in order.
pub fn join_chunks(chunks: &Vec<Vec<u8>>) -> (content: Vec<u8>)
    ensures
        content@ == flat(chunks_view(chunks@)),
{
    let mut content: Vec<u8> = Vec::new();
    let mut i: usize = 0;
    assert(chunks_view(chunks@).take(0) =~= Seq::<Seq<u8>>::empty());
    while i < chunks.len()
        invariant
            i <= chunks@.len(),
            content@ == flat(chunks_view(chunks@).take(i as int)),
        decreases chunks@.len() - i,
    {
        let ghost done = chunks_view(chunks@).take(i as int);
        crate::bytes::append(&mut content, chunks[i].as_slice());
        proof {
            lemma_flat_push(done, chunks@[i as int]@);
            assert(chunks_view(chunks@).take(i + 1) =~= done.push(chunks@[i as int]@));
        }
        i += 1;
    }
    assert(chunks_view(chunks@).take(i as int) =~= chunks_view(chunks@));
    content
}

} // verus!
