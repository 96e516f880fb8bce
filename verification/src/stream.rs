//! Filters as functions on streams, and the law that makes them streamable.

use vstd::prelude::*;

verus! {

/// The mathematical state of a filter for one channel: what it answers to a
/// block of input, and what state it is in afterwards.
///
/// A type that implements the trait proves two laws of itself, from which
/// everything else about streaming follows: a block can be answered in two
/// calls, and an empty block changes nothing.
pub trait Streaming<S>: Sized {
    /// The state is one that the filter can be in.
    spec fn valid(self) -> bool;

    /// The output block for the input block `input`.
    spec fn response(self, input: Seq<S>) -> Seq<S>;

    /// The state after the input block `input`.
    spec fn advance(self, input: Seq<S>) -> Self;

    /// Answering `a` and then `b` gives the answer to `a + b`, in two
    /// pieces, and leaves the filter in the state that `a + b` leaves it
    /// in. The answer is as long as the block, and the state stays valid.
    proof fn law_split(self, a: Seq<S>, b: Seq<S>)
        requires
            self.valid(),
        ensures
            self.response(a).len() == a.len(),
            self.advance(a).valid(),
            self.response(a + b) == self.response(a) + self.advance(a).response(b),
            self.advance(a + b) == self.advance(a).advance(b),
    ;

    /// An empty block is answered with an empty block and changes nothing.
    proof fn law_idle(self)
        requires
            self.valid(),
        ensures
            self.response(Seq::empty()) == Seq::<S>::empty(),
            self.advance(Seq::empty()) == self,
    ;
}

/// The blocks joined end to end.
pub open spec fn concat_blocks<S>(blocks: Seq<Seq<S>>) -> Seq<S>
    decreases blocks.len(),
{
    if blocks.len() == 0 {
        Seq::empty()
    } else {
        concat_blocks(blocks.drop_last()) + blocks.last()
    }
}

/// The state after the blocks have been fed in, one call each.
pub open spec fn advance_in_blocks<S, F: Streaming<S>>(start: F, blocks: Seq<Seq<S>>) -> F
    decreases blocks.len(),
{
    if blocks.len() == 0 {
        start
    } else {
        advance_in_blocks(start, blocks.drop_last()).advance(blocks.last())
    }
}

/// The outputs of feeding the blocks in, one call each, joined end to end.
pub open spec fn response_in_blocks<S, F: Streaming<S>>(start: F, blocks: Seq<Seq<S>>) -> Seq<S>
    decreases blocks.len(),
{
    if blocks.len() == 0 {
        Seq::empty()
    } else {
        response_in_blocks(start, blocks.drop_last()) + advance_in_blocks(
            start,
            blocks.drop_last(),
        ).response(blocks.last())
    }
}

/// Chunk invariance: however a signal is cut into consecutive blocks (empty
/// ones included), feeding the blocks in order and joining the outputs
/// gives what one call on the whole signal gives, and leaves the filter in
/// the same state.
pub proof fn law_chunk_invariance<S, F: Streaming<S>>(start: F, blocks: Seq<Seq<S>>)
    requires
        start.valid(),
    ensures
        response_in_blocks(start, blocks) == start.response(concat_blocks(blocks)),
        advance_in_blocks(start, blocks) == start.advance(concat_blocks(blocks)),
        advance_in_blocks(start, blocks).valid(),
    decreases blocks.len(),
{
    if blocks.len() == 0 {
        start.law_idle();
    } else {
        law_chunk_invariance(start, blocks.drop_last());
        start.law_split(concat_blocks(blocks.drop_last()), blocks.last());
        advance_in_blocks(start, blocks.drop_last()).law_split(blocks.last(), Seq::empty());
    }
}

/// The states of all channels after channel `chan` has taken `input` in:
/// that channel has advanced, every other is as it was.
pub open spec fn feed<S, F: Streaming<S>>(
    bank: spec_fn(int) -> F,
    chan: int,
    input: Seq<S>,
) -> spec_fn(int) -> F {
    |c: int|
        if c == chan {
            bank(c).advance(input)
        } else {
            bank(c)
        }
}

/// Channel isolation: what channel `a` answers to `x`, and the state that
/// this leaves it in, are the same whether or not another channel `b` was
/// fed `y` before; and the two feeds leave every channel in the same state
/// in either order.
pub proof fn law_channel_isolation<S, F: Streaming<S>>(
    bank: spec_fn(int) -> F,
    a: int,
    x: Seq<S>,
    b: int,
    y: Seq<S>,
)
    requires
        a != b,
    ensures
        feed(bank, b, y)(a).response(x) == bank(a).response(x),
        feed(feed(bank, b, y), a, x)(a) == feed(bank, a, x)(a),
        forall|c: int| #[trigger]
            feed(feed(bank, b, y), a, x)(c) == feed(feed(bank, a, x), b, y)(c),
{
}

} // verus!
