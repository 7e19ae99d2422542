//! The ring buffers between the audio thread and the drawing thread.
//!
//! Each channel has one ring. The audio thread pushes into its producer, the
//! drawing thread drains its consumer, each at its own pace. What is in a ring
//! therefore changes between two calls, and no contract speaks of it: the
//! contracts speak of what a producer was handed, of what a consumer gave out,
//! and of the one stream of samples that passes from the one to the other.
use ringbuf::{Consumer, Producer, RingBuffer};
use vstd::prelude::*;

use crate::buffer;
use crate::buffer::FilteredBuffer;

verus! {

/// The reading half of a ring of the `ringbuf` crate.
#[verifier::external_type_specification]
#[verifier::external_body]
#[verifier::reject_recursive_types(T)]
pub struct ExConsumer<T>(Consumer<T>);

/// The writing half of a ring of the `ringbuf` crate.
#[verifier::external_type_specification]
#[verifier::external_body]
#[verifier::reject_recursive_types(T)]
pub struct ExProducer<T>(Producer<T>);

/// All samples that this consumer has given out, in order.
pub uninterp spec fn taken(consumer: Consumer<u32>) -> Seq<u32>;

/// How many samples the ring of this consumer was made to hold.
pub uninterp spec fn ring_capacity(consumer: Consumer<u32>) -> nat;

/// How many samples had come into the ring of this consumer, those that it had
/// given out included, each time that the consumer looked.
pub uninterp spec fn looks(consumer: Consumer<u32>) -> Seq<nat>;

/// All samples that this producer was handed, in order, each with whether the
/// ring had room for it.
pub uninterp spec fn offers(producer: Producer<u32>) -> Seq<(u32, bool)>;

/// The samples that a consumer gave out between two moments.
pub open spec fn fresh(before: Consumer<u32>, after: Consumer<u32>) -> Seq<u32> {
    taken(after).skip(taken(before).len() as int)
}

/// How many samples wait for this consumer at least: as many as at its last look,
/// less those that it has given out since.
pub open spec fn waits_at_least(consumer: Consumer<u32>) -> int {
    if looks(consumer).len() == 0 {
        0
    } else {
        looks(consumer).last() - taken(consumer).len()
    }
}

/// A consumer gave out `fresh` more samples, at most as many as its ring holds,
/// in the order in which they pass through. It looked once, and all that had come
/// by then, and no more, was given out.
pub open spec fn drained(before: Consumer<u32>, after: Consumer<u32>) -> bool {
    &&& taken(after) == taken(before) + fresh(before, after)
    &&& fresh(before, after).len() <= ring_capacity(before)
    &&& looks(after) == looks(before).push(taken(after).len())
    &&& ring_capacity(after) == ring_capacity(before)
    &&& passing(after) == passing(before)
    &&& leaves_in_order(before) ==> leaves_in_order(after)
}

/// How many samples the ring of this producer was made to hold.
pub uninterp spec fn holds(producer: Producer<u32>) -> nat;

/// All samples that ever go into the ring of this producer, in order.
pub uninterp spec fn entering(producer: Producer<u32>) -> Seq<u32>;

/// All samples that ever pass through the ring of this consumer, in order.
pub uninterp spec fn passing(consumer: Consumer<u32>) -> Seq<u32>;

/// The samples among these that the ring had room for, in order.
pub open spec fn accepted_of(offers: Seq<(u32, bool)>) -> Seq<u32> {
    offers.filter(|offer: (u32, bool)| offer.1).map_values(|offer: (u32, bool)| offer.0)
}

/// The samples that the ring had room for, in order.
pub open spec fn accepted(producer: Producer<u32>) -> Seq<u32> {
    accepted_of(offers(producer))
}

/// What the ring took so far is the beginning of what ever goes into it.
pub open spec fn enters_in_order(producer: Producer<u32>) -> bool {
    accepted(producer).is_prefix_of(entering(producer))
}

/// What the consumer gave out so far is the beginning of what ever passes
/// through its ring.
pub open spec fn leaves_in_order(consumer: Consumer<u32>) -> bool {
    taken(consumer).is_prefix_of(passing(consumer))
}

/// The two are the halves of one ring.
pub open spec fn one_ring(producer: Producer<u32>, consumer: Consumer<u32>) -> bool {
    &&& entering(producer) == passing(consumer)
    &&& enters_in_order(producer)
    &&& leaves_in_order(consumer)
}

/// Makes a ring, by `ringbuf`'s `RingBuffer::new` and `split`: nothing was
/// handed in or given out yet, the ring holds `capacity` samples, and what goes
/// in by the one half is what passes to the other, first in, first out.
#[verifier::external_body]
fn new_ring(capacity: usize) -> (r: (Producer<u32>, Consumer<u32>))
    requires
        4 * (capacity + 1) <= isize::MAX,
    ensures
        offers(r.0) == Seq::<(u32, bool)>::empty(),
        taken(r.1) == Seq::<u32>::empty(),
        looks(r.1) == Seq::<nat>::empty(),
        ring_capacity(r.1) == capacity,
        holds(r.0) == capacity,
        one_ring(r.0, r.1),
{
    RingBuffer::<u32>::new(capacity).split()
}

/// `ringbuf`'s `Consumer::len`: how many samples wait in the ring, at most as many
/// as it holds. Meanwhile more may arrive. The consumer is borrowed mutably so
/// that the contract can keep the look; nothing else about it changes. How many
/// there are is up to the thread that pushes them.
#[verifier::external_body]
fn waiting(consumer: &mut Consumer<u32>) -> (n: usize)
    ensures
        n <= ring_capacity(*old(consumer)),
        looks(*final(consumer)) == looks(*old(consumer)).push(
            taken(*old(consumer)).len() + n as nat,
        ),
        taken(*final(consumer)) == taken(*old(consumer)),
        ring_capacity(*final(consumer)) == ring_capacity(*old(consumer)),
        passing(*final(consumer)) == passing(*old(consumer)),
{
    consumer.len()
}

/// `ringbuf`'s `Consumer::pop_slice`: gives out samples into the front of
/// `elems`, at most as many as fit there or in the ring, and says how many. The
/// rest of `elems` stays as it was. They come in the order in which they pass
/// through the ring. Only the consumer takes samples out of the ring, so that
/// those of its last look are still there. Whether there are more is up to the
/// thread that pushes them.
#[verifier::external_body]
fn pop_slice(consumer: &mut Consumer<u32>, elems: &mut [u32]) -> (n: usize)
    ensures
        n <= old(elems)@.len(),
        n <= ring_capacity(*old(consumer)),
        final(elems)@.len() == old(elems)@.len(),
        final(elems)@.skip(n as int) == old(elems)@.skip(n as int),
        taken(*final(consumer)) == taken(*old(consumer)) + final(elems)@.take(n as int),
        n < old(elems)@.len() ==> n >= waits_at_least(*old(consumer)),
        looks(*final(consumer)) == looks(*old(consumer)),
        ring_capacity(*final(consumer)) == ring_capacity(*old(consumer)),
        passing(*final(consumer)) == passing(*old(consumer)),
        leaves_in_order(*final(consumer)),
{
    consumer.pop_slice(elems)
}

/// `ringbuf`'s `Producer::push`: hands one sample in. Where the ring has room the
/// sample goes in behind those before it, where it has none the sample comes
/// back. There is room at least until the ring has taken as many as it holds;
/// whether there is room again is up to the thread that drains it.
#[verifier::external_body]
pub(crate) fn push(producer: &mut Producer<u32>, sample: u32) -> (r: Result<(), u32>)
    ensures
        offers(*final(producer)) == offers(*old(producer)).push((sample, r is Ok)),
        r matches Err(back) ==> back == sample,
        accepted(*old(producer)).len() < holds(*old(producer)) ==> r is Ok,
        holds(*final(producer)) == holds(*old(producer)),
        entering(*final(producer)) == entering(*old(producer)),
        enters_in_order(*final(producer)),
{
    producer.push(sample)
}

/// `ringbuf`'s `Producer::push_slice`: hands samples in, in order, and says how
/// many the ring had room for. These go in behind those before them, the others
/// are dropped. There is room at least until the ring has taken as many as it
/// holds; how much there is again is up to the thread that drains it.
#[verifier::external_body]
pub(crate) fn push_slice(producer: &mut Producer<u32>, samples: &[u32]) -> (n: usize)
    ensures
        n <= samples@.len(),
        offers(*final(producer)) == offers(*old(producer)) + Seq::new(
            samples@.len(),
            |i: int| (samples@[i], i < n),
        ),
        n < samples@.len() ==> accepted(*old(producer)).len() + n >= holds(*old(producer)),
        holds(*final(producer)) == holds(*old(producer)),
        entering(*final(producer)) == entering(*old(producer)),
        enters_in_order(*final(producer)),
{
    producer.push_slice(samples)
}

/// Makes one ring per input channel.
pub fn new_rings(inputs: usize, capacity: usize) -> (r: (Vec<Producer<u32>>, Vec<Consumer<u32>>))
    requires
        4 * (capacity + 1) <= isize::MAX,
    ensures
        r.0@.len() == inputs,
        r.1@.len() == inputs,
        forall|i: int|
            0 <= i < inputs ==> {
                &&& offers(#[trigger] r.0@[i]) == Seq::<(u32, bool)>::empty()
                &&& holds(r.0@[i]) == capacity
            },
        forall|i: int|
            0 <= i < inputs ==> {
                &&& taken(#[trigger] r.1@[i]) == Seq::<u32>::empty()
                &&& looks(r.1@[i]) == Seq::<nat>::empty()
                &&& ring_capacity(r.1@[i]) == capacity
            },
        forall|i: int| 0 <= i < inputs ==> #[trigger] one_ring(r.0@[i], r.1@[i]),
{
    let mut producers: Vec<Producer<u32>> = Vec::new();
    let mut consumers: Vec<Consumer<u32>> = Vec::new();
    let mut made: usize = 0;
    while made < inputs
        invariant
            4 * (capacity + 1) <= isize::MAX,
            made <= inputs,
            producers@.len() == made,
            consumers@.len() == made,
            forall|i: int|
                0 <= i < made ==> {
                    &&& offers(#[trigger] producers@[i]) == Seq::<(u32, bool)>::empty()
                    &&& holds(producers@[i]) == capacity
                },
            forall|i: int|
                0 <= i < made ==> {
                    &&& taken(#[trigger] consumers@[i]) == Seq::<u32>::empty()
                    &&& looks(consumers@[i]) == Seq::<nat>::empty()
                    &&& ring_capacity(consumers@[i]) == capacity
                },
            forall|i: int| 0 <= i < made ==> #[trigger] one_ring(producers@[i], consumers@[i]),
        decreases inputs - made,
    {
        let (producer, consumer) = new_ring(capacity);
        producers.push(producer);
        consumers.push(consumer);
        made = made + 1;
    }
    (producers, consumers)
}

/// Moves what waits in a ring into a window, all of it as of one look at the ring,
/// and says how many samples that were.
pub fn drain(
    consumer: &mut Consumer<u32>,
    scratch: &mut Vec<u32>,
    target: &mut FilteredBuffer,
) -> (moved: u64)
    requires
        old(target).wf(),
    ensures
        drained(*old(consumer), *final(consumer)),
        moved == fresh(*old(consumer), *final(consumer)).len(),
        final(target)@ == buffer::recent(
            old(target)@ + buffer::every(
                fresh(*old(consumer), *final(consumer)),
                old(target).chunk_size as nat,
            ),
            old(target).target_length as nat,
        ),
        final(target).target_length == old(target).target_length,
        final(target).chunk_size == old(target).chunk_size,
        final(target).wf(),
        moved == 0 ==> final(scratch)@ == old(scratch)@,
        moved > 0 ==> {
            &&& moved <= final(scratch)@.len()
            &&& final(scratch)@.take(moved as int) == fresh(*old(consumer), *final(consumer))
        },
        old(target).chunk_size == 1 && old(target)@ == buffer::recent(
            taken(*old(consumer)),
            old(target).target_length as nat,
        ) ==> final(target)@ == buffer::recent(
            taken(*final(consumer)),
            old(target).target_length as nat,
        ),
{
    let available: usize = waiting(consumer);
    if available == 0 {
        proof {
            let none = fresh(*consumer, *consumer);
            let step = target.chunk_size as int;
            assert(none =~= Seq::<u32>::empty());
            vstd::arithmetic::div_mod::lemma_fundamental_div_mod_converse(
                step - 1,
                step,
                0,
                step - 1,
            );
            assert(target@ + buffer::every(none, step as nat) =~= target@);
            assert(taken(*consumer) =~= taken(*consumer) + none);
        }
        return 0;
    }
    scratch.clear();
    scratch.resize(available, 0);
    let got: usize = pop_slice(consumer, scratch.as_mut_slice());
    let ghost gained = scratch@.take(got as int);
    target.input(&scratch[0..got]);
    proof {
        assert(scratch@.subrange(0, got as int) =~= gained);
        assert(fresh(*old(consumer), *consumer) =~= gained);
        if old(target).chunk_size == 1 {
            buffer::law_step_of_one_keeps_all(gained);
            buffer::law_windows_compose(
                Seq::<u32>::empty(),
                taken(*old(consumer)),
                gained,
                old(target).target_length as nat,
            );
            assert(Seq::<u32>::empty() + taken(*old(consumer)) =~= taken(*old(consumer)));
            assert(Seq::<u32>::empty() + (taken(*old(consumer)) + gained) =~= taken(*consumer));
        }
    }
    got as u64
}

/// Of the offers from `k` on, the ring took none to all; all, where it had room
/// for each.
pub proof fn lemma_accepted_grows(offers: Seq<(u32, bool)>, k: int)
    requires
        0 <= k <= offers.len(),
    ensures
        accepted_of(offers.take(k)).len() <= accepted_of(offers).len(),
        accepted_of(offers).len() <= accepted_of(offers.take(k)).len() + (offers.len() - k),
        (forall|i: int| k <= i < offers.len() ==> (#[trigger] offers[i]).1) ==> accepted_of(
            offers,
        ).len() == accepted_of(offers.take(k)).len() + (offers.len() - k),
    decreases offers.len(),
{
    reveal(Seq::filter);
    if k == offers.len() {
        assert(offers.take(k) =~= offers);
    } else {
        let front = offers.drop_last();
        lemma_accepted_grows(front, k);
        assert(front.take(k) =~= offers.take(k));
        assert(forall|i: int| 0 <= i < front.len() ==> #[trigger] front[i] == offers[i]);
    }
}

/// First in, first out: what the one half of a ring gives out is what the other
/// took in, each sample at its place.
pub proof fn law_samples_come_out_as_they_went_in(
    producer: Producer<u32>,
    consumer: Consumer<u32>,
    i: int,
)
    requires
        one_ring(producer, consumer),
        0 <= i < accepted(producer).len(),
        i < taken(consumer).len(),
    ensures
        taken(consumer)[i] == accepted(producer)[i],
{
}

/// What a consumer gave out between two moments is what it has given out by the
/// second and had not by the first.
pub proof fn law_fresh_samples_are_the_new_ones(
    before: Consumer<u32>,
    after: Consumer<u32>,
    new: Seq<u32>,
)
    requires
        taken(after) == taken(before) + new,
    ensures
        fresh(before, after) == new,
{
    assert(fresh(before, after) =~= new);
}

/// A drained ring has given out, behind all it had given out before, just what its
/// one look saw waiting, each sample in its place, and nothing of what it had given
/// out before is taken back.
pub proof fn law_draining_gives_out_what_was_seen(
    before: Consumer<u32>,
    after: Consumer<u32>,
    i: int,
)
    requires
        drained(before, after),
    ensures
        looks(after).len() == looks(before).len() + 1,
        looks(after).last() == taken(after).len(),
        taken(after).len() >= taken(before).len(),
        taken(after).len() - taken(before).len() <= ring_capacity(before),
        0 <= i < taken(before).len() ==> taken(after)[i] == taken(before)[i],
        passing(after) == passing(before),
        leaves_in_order(before) && 0 <= i < taken(after).len() ==> taken(after)[i] == passing(
            before,
        )[i],
{
}

/// What the ring took is what it was offered with room for it, in order: one more
/// offer adds its sample where there was room, and nothing where there was none.
pub proof fn law_accepted_samples_are_those_with_room(
    offers: Seq<(u32, bool)>,
    sample: u32,
    room: bool,
)
    ensures
        accepted_of(Seq::empty()) == Seq::<u32>::empty(),
        accepted_of(offers.push((sample, room))) == if room {
            accepted_of(offers).push(sample)
        } else {
            accepted_of(offers)
        },
{
    reveal(Seq::filter);
    assert(offers.push((sample, room)).drop_last() =~= offers);
    assert(accepted_of(Seq::empty()) =~= Seq::<u32>::empty());
    assert(accepted_of(offers.push((sample, room))) =~= if room {
        accepted_of(offers).push(sample)
    } else {
        accepted_of(offers)
    });
}

} // verus!
