//! Rings of samples between an audio thread and the rest of the program.
//!
//! A ring has two halves, and each may live on a thread of its own. A sample travels as the bit
//! pattern of a 32-bit value, so that a ring holds plain integers; the pattern of silence is zero.
use ringbuf::traits::{Consumer, Producer, Split};
use ringbuf::{HeapCons, HeapProd, HeapRb};
use vstd::prelude::*;

verus! {

/// The bit pattern of a silent sample.
pub const SILENT: u32 = 0;

/// The half of a ring that puts samples in: a `ringbuf::HeapProd` over bit patterns.
#[verifier::external_body]
pub struct SampleProducer {
    half: HeapProd<u32>,
}

/// The half of a ring that takes samples out: a `ringbuf::HeapCons` over bit patterns.
#[verifier::external_body]
pub struct SampleConsumer {
    half: HeapCons<u32>,
}

/// Every sample that was offered through this half, oldest first, and whether the ring took it.
pub uninterp spec fn pushes(p: SampleProducer) -> Seq<(u32, bool)>;

/// Every answer that this half has got from its ring, oldest first: a sample, or that there was
/// none.
pub uninterp spec fn pops(c: SampleConsumer) -> Seq<Option<u32>>;

/// The number of samples that the ring of this half was made for.
pub uninterp spec fn ring_capacity(p: SampleProducer) -> nat;

/// Every sample that the ring of this half takes in the whole of its life, oldest first.
pub uninterp spec fn stream_in(p: SampleProducer) -> Seq<u32>;

/// Every sample that the ring of this half takes in the whole of its life, oldest first.
pub uninterp spec fn stream_out(c: SampleConsumer) -> Seq<u32>;

/// `ringbuf::HeapRb::new` and its `split`: the two halves of one empty ring for `capacity` samples.
/// What goes through the one half is what goes through the other. The outside constructor panics on
/// a capacity of zero and on a buffer larger than the address space allows.
#[verifier::external_body]
pub(crate) fn sample_ring(capacity: usize) -> (halves: (SampleProducer, SampleConsumer))
    requires
        0 < capacity,
        4 * capacity <= isize::MAX,
    ensures
        pushes(halves.0) == Seq::<(u32, bool)>::empty(),
        pops(halves.1) == Seq::<Option<u32>>::empty(),
        ring_capacity(halves.0) == capacity,
        stream_in(halves.0) == stream_out(halves.1),
{
    let (prod, cons) = HeapRb::<u32>::new(capacity).split();
    (SampleProducer { half: prod }, SampleConsumer { half: cons })
}

/// `ringbuf`'s `Producer::try_push`: puts one sample in and says `true`, or finds the ring full and
/// says `false`. The samples that went in so far are the first that the ring takes in its life. A
/// ring that has taken fewer samples than it was made for is not full. When a ring that has taken
/// more has room again is up to the thread that holds the other half, so nothing is said of that.
#[verifier::external_body]
pub(crate) fn try_push(prod: &mut SampleProducer, sample: u32) -> (taken: bool)
    ensures
        ring_capacity(*final(prod)) == ring_capacity(*old(prod)),
        stream_in(*final(prod)) == stream_in(*old(prod)),
        pushes(*final(prod)) == pushes(*old(prod)).push((sample, taken)),
        kept(pushes(*final(prod))).is_prefix_of(stream_in(*final(prod))),
        kept(pushes(*old(prod))).len() < ring_capacity(*old(prod)) ==> taken,
{
    prod.half.try_push(sample).is_ok()
}

/// `ringbuf`'s `Consumer::try_pop`: takes the oldest sample out, or finds the ring empty and says
/// `None`. The samples that came out so far are the first that the ring takes in its life, so they
/// come out in the order in which they went in. Whether one is there by now is up to the thread
/// that holds the other half, so nothing is said of when an answer is `None`.
#[verifier::external_body]
pub(crate) fn try_pop(cons: &mut SampleConsumer) -> (answer: Option<u32>)
    ensures
        stream_out(*final(cons)) == stream_out(*old(cons)),
        pops(*final(cons)) == pops(*old(cons)).push(answer),
        found(pops(*final(cons))).is_prefix_of(stream_out(*final(cons))),
{
    cons.half.try_pop()
}

/// The samples that the ring took, of those that were offered.
pub open spec fn kept(log: Seq<(u32, bool)>) -> Seq<u32>
    decreases log.len(),
{
    if log.len() == 0 {
        seq![]
    } else if log.last().1 {
        kept(log.drop_last()).push(log.last().0)
    } else {
        kept(log.drop_last())
    }
}

/// The samples among a row of answers.
pub open spec fn found(answers: Seq<Option<u32>>) -> Seq<u32>
    decreases answers.len(),
{
    if answers.len() == 0 {
        seq![]
    } else {
        match answers.last() {
            Some(s) => found(answers.drop_last()).push(s),
            None => found(answers.drop_last()),
        }
    }
}

/// A row of answers as it is heard: silence where there was no sample.
pub open spec fn heard(answers: Seq<Option<u32>>) -> Seq<u32> {
    answers.map_values(
        |s: Option<u32>|
            match s {
                Some(v) => v,
                None => SILENT,
            },
    )
}

/// The part of a log that was added since it stood at `before`.
pub open spec fn since<T>(before: Seq<T>, after: Seq<T>) -> Seq<T> {
    after.subrange(before.len() as int, after.len() as int)
}

/// Whether two halves belong to one ring: what goes into the one comes out of the other.
pub open spec fn is_one_ring(p: SampleProducer, c: SampleConsumer) -> bool {
    stream_in(p) == stream_out(c)
}

/// Whether the samples that went in through this half so far are the first of the ring's life.
pub open spec fn fed_in_order(p: SampleProducer) -> bool {
    kept(pushes(p)).is_prefix_of(stream_in(p))
}

/// Whether the samples that came out through this half so far are the first of the ring's life.
pub open spec fn drained_in_order(c: SampleConsumer) -> bool {
    found(pops(c)).is_prefix_of(stream_out(c))
}

/// Samples come out of a ring in the order in which they went in, none lost, none twice: the sample
/// that came out at any place is the one that went in at that place.
pub proof fn law_ring_keeps_order(p: SampleProducer, c: SampleConsumer, i: int)
    requires
        is_one_ring(p, c),
        fed_in_order(p),
        drained_in_order(c),
        0 <= i < kept(pushes(p)).len(),
        i < found(pops(c)).len(),
    ensures
        found(pops(c))[i] == kept(pushes(p))[i],
{
    assert(kept(pushes(p))[i] == stream_in(p)[i]);
    assert(found(pops(c))[i] == stream_out(c)[i]);
}

/// Offers samples until one is refused; the rest is lost. Returns how many went in.
pub fn push_until_full(prod: &mut SampleProducer, samples: &[u32]) -> (pushed: usize)
    ensures
        pushed <= samples@.len(),
        pushes(*final(prod)) == pushes(*old(prod)) + samples@.subrange(0, pushed as int).map_values(
            |s: u32| (s, true),
        ) + if pushed < samples@.len() {
            seq![(samples@[pushed as int], false)]
        } else {
            seq![]
        },
        kept(pushes(*final(prod))) == kept(pushes(*old(prod))) + samples@.subrange(
            0,
            pushed as int,
        ),
        ring_capacity(*final(prod)) == ring_capacity(*old(prod)),
        stream_in(*final(prod)) == stream_in(*old(prod)),
        fed_in_order(*old(prod)) || samples@.len() > 0 ==> fed_in_order(*final(prod)),
        kept(pushes(*old(prod))).len() + samples@.len() <= ring_capacity(*old(prod)) ==> pushed
            == samples@.len(),
{
    let mut pushed: usize = 0;
    let ghost mark = |s: u32| (s, true);
    assert(pushes(*prod) =~= pushes(*old(prod)) + samples@.subrange(0, 0).map_values(mark));
    while pushed < samples.len()
        invariant
            pushed <= samples.len(),
            mark == (|s: u32| (s, true)),
            pushes(*prod) == pushes(*old(prod)) + samples@.subrange(0, pushed as int).map_values(
                mark,
            ),
            kept(pushes(*prod)) == kept(pushes(*old(prod))) + samples@.subrange(0, pushed as int),
            ring_capacity(*prod) == ring_capacity(*old(prod)),
            stream_in(*prod) == stream_in(*old(prod)),
            fed_in_order(*old(prod)) || pushed > 0 ==> fed_in_order(*prod),
        decreases samples.len() - pushed,
    {
        let ghost log = pushes(*prod);
        let taken = try_push(prod, samples[pushed]);
        proof {
            assert(pushes(*prod).drop_last() =~= log);
        }
        if !taken {
            assert(pushes(*prod) =~= log + seq![(samples@[pushed as int], false)]);
            return pushed;
        }
        pushed = pushed + 1;
        assert(pushes(*prod) =~= pushes(*old(prod)) + samples@.subrange(
            0,
            pushed as int,
        ).map_values(mark));
    }
    assert(pushes(*prod) =~= pushes(*prod) + Seq::<(u32, bool)>::empty());
    pushed
}

/// Offers every sample; those that are refused are lost. Returns how many went in.
pub fn push_each(prod: &mut SampleProducer, samples: &[u32]) -> (pushed: usize)
    ensures
        pushes(*old(prod)).is_prefix_of(pushes(*final(prod))),
        since(pushes(*old(prod)), pushes(*final(prod))).map_values(|e: (u32, bool)| e.0)
            == samples@,
        kept(pushes(*final(prod))).len() == kept(pushes(*old(prod))).len() + pushed,
        ring_capacity(*final(prod)) == ring_capacity(*old(prod)),
        stream_in(*final(prod)) == stream_in(*old(prod)),
        fed_in_order(*old(prod)) || samples@.len() > 0 ==> fed_in_order(*final(prod)),
        kept(pushes(*old(prod))).len() + samples@.len() <= ring_capacity(*old(prod)) ==> pushed
            == samples@.len(),
{
    let mut pushed: usize = 0;
    let mut i: usize = 0;
    while i < samples.len()
        invariant
            pushed <= i <= samples.len(),
            pushes(*prod).len() == pushes(*old(prod)).len() + i,
            pushes(*old(prod)).is_prefix_of(pushes(*prod)),
            forall|k: int|
                pushes(*old(prod)).len() <= k < pushes(*prod).len() ==> (#[trigger] pushes(
                    *prod,
                )[k]).0 == samples@[k - pushes(*old(prod)).len()],
            kept(pushes(*prod)).len() == kept(pushes(*old(prod))).len() + pushed,
            ring_capacity(*prod) == ring_capacity(*old(prod)),
            stream_in(*prod) == stream_in(*old(prod)),
            fed_in_order(*old(prod)) || i > 0 ==> fed_in_order(*prod),
            kept(pushes(*old(prod))).len() + samples@.len() <= ring_capacity(*old(prod)) ==> pushed
                == i,
        decreases samples.len() - i,
    {
        let ghost log = pushes(*prod);
        let taken = try_push(prod, samples[i]);
        proof {
            assert(pushes(*prod).drop_last() =~= log);
        }
        if taken {
            pushed = pushed + 1;
        }
        i = i + 1;
    }
    assert(since(pushes(*old(prod)), pushes(*prod)).map_values(|e: (u32, bool)| e.0) =~= samples@);
    pushed
}

/// A row of answers as samples, with silence where there was none, and the number of samples in it.
pub fn hear(answers: &[Option<u32>]) -> (r: (Vec<u32>, usize))
    ensures
        r.0@ == heard(answers@),
        r.1 == found(answers@).len(),
{
    let mut frame: Vec<u32> = Vec::with_capacity(answers.len());
    let mut popped: usize = 0;
    let mut i: usize = 0;
    while i < answers.len()
        invariant
            popped <= i <= answers.len(),
            frame@ == heard(answers@.subrange(0, i as int)),
            popped == found(answers@.subrange(0, i as int)).len(),
        decreases answers.len() - i,
    {
        assert(answers@.subrange(0, i + 1).drop_last() =~= answers@.subrange(0, i as int));
        match answers[i] {
            Some(s) => {
                popped = popped + 1;
                frame.push(s);
            },
            None => {
                frame.push(SILENT);
            },
        }
        i = i + 1;
        assert(frame@ =~= heard(answers@.subrange(0, i as int)));
    }
    assert(answers@.subrange(0, i as int) =~= answers@);
    (frame, popped)
}

/// Asks the ring for a frame of `n` samples, with silence wherever it has none. Returns the frame
/// and how many of its samples came from the ring.
pub fn pop_frame(cons: &mut SampleConsumer, n: usize) -> (r: (Vec<u32>, usize))
    ensures
        pops(*old(cons)).is_prefix_of(pops(*final(cons))),
        pops(*final(cons)).len() == pops(*old(cons)).len() + n,
        r.0@ == heard(since(pops(*old(cons)), pops(*final(cons)))),
        r.1 == found(since(pops(*old(cons)), pops(*final(cons)))).len(),
        stream_out(*final(cons)) == stream_out(*old(cons)),
        drained_in_order(*old(cons)) || n > 0 ==> drained_in_order(*final(cons)),
{
    let mut answers: Vec<Option<u32>> = Vec::with_capacity(n);
    let mut i: usize = 0;
    assert(pops(*cons) =~= pops(*old(cons)) + answers@);
    while i < n
        invariant
            i <= n,
            answers@.len() == i,
            pops(*cons) == pops(*old(cons)) + answers@,
            stream_out(*cons) == stream_out(*old(cons)),
            drained_in_order(*old(cons)) || i > 0 ==> drained_in_order(*cons),
        decreases n - i,
    {
        let answer = try_pop(cons);
        answers.push(answer);
        i = i + 1;
        assert(pops(*cons) =~= pops(*old(cons)) + answers@);
    }
    assert(since(pops(*old(cons)), pops(*cons)) =~= answers@);
    hear(answers.as_slice())
}

/// Of the samples that were offered, the ring kept those that it took, in their order; of a row of
/// answers, those that are samples were found, in their order.
pub proof fn law_what_was_taken_is_kept(log: Seq<(u32, bool)>, answers: Seq<Option<u32>>)
    ensures
        kept(log) == log.filter(|e: (u32, bool)| e.1).map_values(|e: (u32, bool)| e.0),
        found(answers) == answers.filter(|a: Option<u32>| a is Some).map_values(
            |a: Option<u32>| a->0,
        ),
{
    lemma_kept_is_filter(log);
    lemma_found_is_filter(answers);
}

proof fn lemma_kept_is_filter(log: Seq<(u32, bool)>)
    ensures
        kept(log) == log.filter(|e: (u32, bool)| e.1).map_values(|e: (u32, bool)| e.0),
    decreases log.len(),
{
    reveal(Seq::filter);
    if log.len() > 0 {
        lemma_kept_is_filter(log.drop_last());
    }
    assert(kept(log) =~= log.filter(|e: (u32, bool)| e.1).map_values(|e: (u32, bool)| e.0));
}

proof fn lemma_found_is_filter(answers: Seq<Option<u32>>)
    ensures
        found(answers) == answers.filter(|a: Option<u32>| a is Some).map_values(
            |a: Option<u32>| a->0,
        ),
    decreases answers.len(),
{
    reveal(Seq::filter);
    if answers.len() > 0 {
        lemma_found_is_filter(answers.drop_last());
    }
    assert(found(answers) =~= answers.filter(|a: Option<u32>| a is Some).map_values(
        |a: Option<u32>| a->0,
    ));
}

/// Where every answer is a sample, all of them are found, each at its place.
proof fn lemma_all_found(answers: Seq<Option<u32>>)
    requires
        forall|j: int| 0 <= j < answers.len() ==> #[trigger] answers[j] is Some,
    ensures
        found(answers).len() == answers.len(),
        forall|j: int| 0 <= j < answers.len() ==> #[trigger] found(answers)[j] == answers[j]->0,
    decreases answers.len(),
{
    if answers.len() > 0 {
        let front = answers.drop_last();
        assert forall|j: int| 0 <= j < front.len() implies #[trigger] front[j] is Some by {
            assert(answers[j] is Some);
        }
        lemma_all_found(front);
        assert forall|j: int| 0 <= j < answers.len() implies #[trigger] found(answers)[j]
            == answers[j]->0 by {
            if j < front.len() {
                assert(found(front)[j] == front[j]->0);
            }
        }
    }
}

/// Never more samples are found than answers came, and as many only where each is one.
proof fn lemma_found_at_most(answers: Seq<Option<u32>>)
    ensures
        found(answers).len() <= answers.len(),
        found(answers).len() == answers.len() ==> forall|j: int|
            0 <= j < answers.len() ==> #[trigger] answers[j] is Some,
    decreases answers.len(),
{
    if answers.len() > 0 {
        lemma_found_at_most(answers.drop_last());
        if found(answers).len() == answers.len() {
            assert forall|j: int| 0 <= j < answers.len() implies #[trigger] answers[j] is Some by {
                if j < answers.len() - 1 {
                    assert(answers.drop_last()[j] is Some);
                }
            }
        }
    }
}

/// What two logs of offers kept together is what the one kept and then what the other kept.
proof fn lemma_kept_splits(a: Seq<(u32, bool)>, b: Seq<(u32, bool)>)
    ensures
        kept(a + b) == kept(a) + kept(b),
    decreases b.len(),
{
    if b.len() == 0 {
        assert(a + b =~= a);
        assert(kept(a + b) =~= kept(a) + kept(b));
    } else {
        lemma_kept_splits(a, b.drop_last());
        assert((a + b).drop_last() =~= a + b.drop_last());
        assert(kept(a + b) =~= kept(a) + kept(b));
    }
}

/// A sample that came out is heard as it is, whatever its bits, and zero is heard where none came.
/// The count is that of the samples; where every answer is one, the row is heard whole.
pub proof fn law_samples_are_heard_as_they_are(
    answers: &[Option<u32>],
    r: (Vec<u32>, usize),
    i: int,
)
    requires
        call_ensures(hear, (answers,), r),
    ensures
        r.0@.len() == answers@.len(),
        0 <= i < answers@.len() && answers@[i] is Some ==> r.0@[i] == answers@[i]->0,
        0 <= i < answers@.len() && answers@[i] is None ==> r.0@[i] == 0,
        r.1 == answers@.filter(|a: Option<u32>| a is Some).len(),
        r.1 == answers@.len() ==> r.0@ == answers@.map_values(|a: Option<u32>| a->0),
        call_requires(hear, (answers,)),
{
    lemma_found_is_filter(answers@);
    lemma_found_at_most(answers@);
    if r.1 == answers@.len() {
        assert(r.0@ =~= answers@.map_values(|a: Option<u32>| a->0));
    }
}

/// A frame of `n` samples asks the ring exactly `n` times: each sample of it is the answer of its
/// turn, whatever its bits, or zero where the ring had none. All samples that came out so far are
/// the first of the ring's life.
pub proof fn law_frame_is_what_the_ring_answered(
    c: &mut SampleConsumer,
    n: usize,
    r: (Vec<u32>, usize),
    i: int,
)
    requires
        call_ensures(pop_frame, (c, n), r),
    ensures
        r.0@.len() == n,
        pops(*final(c)).len() == pops(*old(c)).len() + n,
        0 <= i < pops(*old(c)).len() ==> pops(*final(c))[i] == pops(*old(c))[i],
        0 <= i < n ==> r.0@[i] == match pops(*final(c))[pops(*old(c)).len() + i] {
            Some(v) => v,
            None => 0,
        },
        r.1 == pops(*final(c)).skip(pops(*old(c)).len() as int).filter(
            |a: Option<u32>| a is Some,
        ).len(),
        stream_out(*final(c)) == stream_out(*old(c)),
        n > 0 ==> pops(*final(c)).filter(|a: Option<u32>| a is Some).map_values(
            |a: Option<u32>| a->0,
        ).is_prefix_of(stream_out(*final(c))),
        call_requires(pop_frame, (c, n)),
{
    lemma_found_is_filter(pops(*final(c)));
    let answers = since(pops(*old(c)), pops(*final(c)));
    lemma_found_is_filter(answers);
    assert(answers =~= pops(*final(c)).skip(pops(*old(c)).len() as int));
    if 0 <= i < n {
        assert(answers[i] == pops(*final(c))[pops(*old(c)).len() + i]);
    }
}

/// Samples are offered in their order until one is refused, and none after that: the count is that
/// of those that went in before, and all go in where the ring was made for more than it has taken.
/// All samples that went in so far are the first of the ring's life.
pub proof fn law_offers_stop_at_the_first_refusal(
    p: &mut SampleProducer,
    samples: &[u32],
    pushed: usize,
    i: int,
)
    requires
        call_ensures(push_until_full, (p, samples), pushed),
    ensures
        pushed <= samples@.len(),
        0 <= i < pushes(*old(p)).len() ==> pushes(*final(p))[i] == pushes(*old(p))[i],
        0 <= i < pushed ==> pushes(*final(p))[pushes(*old(p)).len() + i] == (samples@[i], true),
        pushed == samples@.len() ==> pushes(*final(p)).len() == pushes(*old(p)).len() + pushed,
        pushed < samples@.len() ==> {
            &&& pushes(*final(p)).len() == pushes(*old(p)).len() + pushed + 1
            &&& pushes(*final(p))[pushes(*old(p)).len() + pushed] == (
                samples@[pushed as int],
                false,
            )
        },
        pushes(*old(p)).filter(|e: (u32, bool)| e.1).len() + samples@.len() <= ring_capacity(
            *old(p),
        ) ==> pushed == samples@.len(),
        ring_capacity(*final(p)) == ring_capacity(*old(p)),
        stream_in(*final(p)) == stream_in(*old(p)),
        samples@.len() > 0 ==> pushes(*final(p)).filter(|e: (u32, bool)| e.1).map_values(
            |e: (u32, bool)| e.0,
        ).is_prefix_of(stream_in(*final(p))),
        call_requires(push_until_full, (p, samples)),
{
    lemma_kept_is_filter(pushes(*final(p)));
    lemma_kept_is_filter(pushes(*old(p)));
}

/// Every sample is offered once, in their order, whatever became of those before: the count is that
/// of those that went in, and all go in where the ring was made for more than it has taken. All
/// samples that went in so far are the first of the ring's life.
pub proof fn law_every_sample_is_offered(
    p: &mut SampleProducer,
    samples: &[u32],
    pushed: usize,
    i: int,
)
    requires
        call_ensures(push_each, (p, samples), pushed),
    ensures
        pushes(*final(p)).len() == pushes(*old(p)).len() + samples@.len(),
        0 <= i < pushes(*old(p)).len() ==> pushes(*final(p))[i] == pushes(*old(p))[i],
        0 <= i < samples@.len() ==> pushes(*final(p))[pushes(*old(p)).len() + i].0 == samples@[i],
        pushed == pushes(*final(p)).skip(pushes(*old(p)).len() as int).filter(
            |e: (u32, bool)| e.1,
        ).len(),
        pushes(*old(p)).filter(|e: (u32, bool)| e.1).len() + samples@.len() <= ring_capacity(
            *old(p),
        ) ==> pushed == samples@.len(),
        ring_capacity(*final(p)) == ring_capacity(*old(p)),
        stream_in(*final(p)) == stream_in(*old(p)),
        samples@.len() > 0 ==> pushes(*final(p)).filter(|e: (u32, bool)| e.1).map_values(
            |e: (u32, bool)| e.0,
        ).is_prefix_of(stream_in(*final(p))),
        call_requires(push_each, (p, samples)),
{
    lemma_kept_is_filter(pushes(*final(p)));
    let before = pushes(*old(p));
    let after = pushes(*final(p));
    let offers = since(before, after);
    lemma_kept_is_filter(before);
    lemma_kept_is_filter(offers);
    lemma_kept_splits(before, offers);
    assert(before + offers =~= after);
    assert(offers =~= after.skip(before.len() as int));
    let firsts = offers.map_values(|e: (u32, bool)| e.0);
    assert(firsts.len() == samples@.len());
    if 0 <= i < samples@.len() {
        assert(firsts[i] == samples@[i]);
        assert(offers[i] == after[before.len() + i]);
    }
}

/// What goes into a fresh ring is what comes out of it: where a frame that is taken out has a
/// sample at every place, and no more places than went in, it is the front of what was offered, bit
/// for bit.
pub proof fn law_fresh_ring_gives_back_what_it_took(
    p: &mut SampleProducer,
    samples: &[u32],
    pushed: usize,
    c: &mut SampleConsumer,
    n: usize,
    r: (Vec<u32>, usize),
)
    requires
        stream_in(*old(p)) == stream_out(*old(c)),
        pushes(*old(p)).len() == 0,
        pops(*old(c)).len() == 0,
        call_ensures(push_until_full, (p, samples), pushed),
        call_ensures(pop_frame, (c, n), r),
        r.1 == n,
        n <= pushed,
    ensures
        r.0@ == samples@.subrange(0, n as int),
{
    let answers = since(pops(*old(c)), pops(*final(c)));
    assert(pops(*final(c)) =~= answers);
    assert(pushes(*old(p)) =~= Seq::empty());
    assert(pops(*old(c)) =~= Seq::empty());
    lemma_found_at_most(answers);
    lemma_all_found(answers);
    assert(fed_in_order(*final(p)));
    assert(drained_in_order(*final(c)));
    assert(kept(pushes(*final(p))) =~= samples@.subrange(0, pushed as int));
    assert forall|i: int| 0 <= i < n implies r.0@[i] == samples@.subrange(0, n as int)[i] by {
        law_ring_keeps_order(*final(p), *final(c), i);
        assert(found(answers)[i] == answers[i]->0);
    }
    assert(r.0@ =~= samples@.subrange(0, n as int));
}

} // verus!
