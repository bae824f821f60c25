//! The audio side: the choice of a format that both devices share, the rings between the devices
//! and the network, and the samples that pass a device at a time.
use crate::ring::{pop_frame, sample_ring, SampleConsumer, SampleProducer};
use std::sync::atomic::AtomicUsize;
use std::sync::Arc;
use vstd::prelude::*;

verus! {

/// How a device lays out a sample.
#[derive(Clone, Copy, Debug, PartialEq, Eq, Structural)]
pub enum SampleFormat {
    I8,
    I16,
    I32,
    I64,
    U8,
    U16,
    U32,
    U64,
    F32,
    F64,
    /// Any layout without a name here.
    Other,
}

/// A row of configurations that a device supports: one layout, one channel count, every rate
/// between two bounds.
#[derive(Clone, Copy, Debug, PartialEq, Eq, Structural)]
pub struct FormatRange {
    pub format: SampleFormat,
    pub channels: u16,
    pub min_rate: u32,
    pub max_rate: u32,
}

/// The configuration that a device uses by default.
#[derive(Clone, Copy, Debug, PartialEq, Eq, Structural)]
pub struct DefaultFormat {
    pub format: SampleFormat,
    pub channels: u16,
    pub rate: u32,
}

/// Why the audio side refused a request.
#[derive(Clone, Copy, Debug, PartialEq, Eq, Structural)]
pub enum AudioError {
    CaptureConsumerTaken,
    PlaybackProducerTaken,
    CaptureStarted,
    PlaybackStarted,
    NoCommonFormat,
}

impl AudioError {
    /// The text of each error.
    pub open spec fn text(self) -> Seq<char> {
        match self {
            AudioError::CaptureConsumerTaken => "capture consumer already taken"@,
            AudioError::PlaybackProducerTaken => "playback producer already taken"@,
            AudioError::CaptureStarted => "capture already started"@,
            AudioError::PlaybackStarted => "playback already started"@,
            AudioError::NoCommonFormat =>
                "Failed to find common f32 format between input and output (try a different device/rate)"@,
        }
    }

    /// The error in words.
    pub fn message(&self) -> (s: &'static str)
        ensures
            s@ == self.text(),
    {
        match self {
            AudioError::CaptureConsumerTaken => "capture consumer already taken",
            AudioError::PlaybackProducerTaken => "playback producer already taken",
            AudioError::CaptureStarted => "capture already started",
            AudioError::PlaybackStarted => "playback already started",
            AudioError::NoCommonFormat =>
                "Failed to find common f32 format between input and output (try a different device/rate)",
        }
    }
}

/// The rates that are tried first, in this order.
pub const PREFERRED_RATES: [u32; 2] = [16_000, 48_000];

impl FormatRange {
    /// Whether the range offers this layout at this rate.
    pub open spec fn offers(self, fmt: SampleFormat, rate: u32) -> bool {
        self.format == fmt && self.min_rate <= rate <= self.max_rate
    }

    fn check(&self, fmt: SampleFormat, rate: u32) -> (r: bool)
        ensures
            r == self.offers(fmt, rate),
    {
        self.format == fmt && self.min_rate <= rate && rate <= self.max_rate
    }
}

/// Whether an input device can record this layout at this rate.
pub open spec fn input_supports(input: Seq<FormatRange>, fmt: SampleFormat, rate: u32) -> bool {
    exists|i: int|
        0 <= i < input.len() && (#[trigger] input[i]).offers(fmt, rate) && input[i].channels >= 1
}

/// Whether the range at `k` is the first of an output device to offer this layout at this rate.
pub open spec fn is_first_output(
    output: Seq<FormatRange>,
    fmt: SampleFormat,
    rate: u32,
    k: int,
) -> bool {
    &&& 0 <= k < output.len()
    &&& output[k].offers(fmt, rate)
    &&& forall|j: int| 0 <= j < k ==> !(#[trigger] output[j]).offers(fmt, rate)
}

/// Whether both devices can use this layout at this rate.
pub open spec fn is_common(
    input: Seq<FormatRange>,
    output: Seq<FormatRange>,
    fmt: SampleFormat,
    rate: u32,
) -> bool {
    &&& input_supports(input, fmt, rate)
    &&& exists|k: int| is_first_output(output, fmt, rate, k)
}

/// Whether the rate at `i` is the first of `rates` that both devices can use.
pub open spec fn is_first_common(
    input: Seq<FormatRange>,
    output: Seq<FormatRange>,
    rates: Seq<u32>,
    fmt: SampleFormat,
    i: int,
) -> bool {
    &&& 0 <= i < rates.len()
    &&& is_common(input, output, fmt, rates[i])
    &&& forall|j: int| 0 <= j < i ==> !is_common(input, output, fmt, #[trigger] rates[j])
}

/// Whether `choice` is the rate at `i` with the channels of the output range at `k`, both the first
/// that will do.
pub open spec fn is_pick(
    input: Seq<FormatRange>,
    output: Seq<FormatRange>,
    rates: Seq<u32>,
    fmt: SampleFormat,
    i: int,
    k: int,
    choice: (u32, u16),
) -> bool {
    &&& is_first_common(input, output, rates, fmt, i)
    &&& is_first_output(output, fmt, rates[i], k)
    &&& choice == (rates[i], output[k].channels)
}

fn supports_in(input: &[FormatRange], fmt: SampleFormat, rate: u32) -> (r: bool)
    ensures
        r == input_supports(input@, fmt, rate),
{
    let mut i: usize = 0;
    while i < input.len()
        invariant
            i <= input.len(),
            forall|j: int|
                0 <= j < i ==> !((#[trigger] input@[j]).offers(fmt, rate) && input@[j].channels
                    >= 1),
        decreases input.len() - i,
    {
        if input[i].channels >= 1 && input[i].check(fmt, rate) {
            return true;
        }
        i = i + 1;
    }
    false
}

fn find_out(output: &[FormatRange], fmt: SampleFormat, rate: u32) -> (r: Option<u16>)
    ensures
        r is None <==> forall|k: int| !is_first_output(output@, fmt, rate, k),
        r matches Some(channels) ==> exists|k: int|
            is_first_output(output@, fmt, rate, k) && channels == output@[k].channels,
{
    let mut i: usize = 0;
    while i < output.len()
        invariant
            i <= output.len(),
            forall|j: int| 0 <= j < i ==> !(#[trigger] output@[j]).offers(fmt, rate),
        decreases output.len() - i,
    {
        if output[i].check(fmt, rate) {
            assert(is_first_output(output@, fmt, rate, i as int));
            return Some(output[i].channels);
        }
        i = i + 1;
    }
    None
}

/// The first preferred rate that both devices can use with the given layout, and the channel count
/// of the first output range that offers it.
pub fn pick_common_format(
    input: &[FormatRange],
    output: &[FormatRange],
    preferred_rates: &[u32],
    fmt: SampleFormat,
) -> (r: Option<(u32, u16)>)
    ensures
        r is None <==> forall|i: int|
            0 <= i < preferred_rates@.len() ==> !is_common(
                input@,
                output@,
                fmt,
                #[trigger] preferred_rates@[i],
            ),
        r is Some ==> exists|i: int, k: int|
            is_pick(input@, output@, preferred_rates@, fmt, i, k, r->0),
{
    let mut i: usize = 0;
    while i < preferred_rates.len()
        invariant
            i <= preferred_rates.len(),
            forall|j: int|
                0 <= j < i ==> !is_common(input@, output@, fmt, #[trigger] preferred_rates@[j]),
        decreases preferred_rates.len() - i,
    {
        let rate = preferred_rates[i];
        if supports_in(input, fmt, rate) {
            if let Some(channels) = find_out(output, fmt, rate) {
                let choice = (rate, channels);
                proof {
                    let k = choose|k: int|
                        is_first_output(output@, fmt, rate, k) && channels == output@[k].channels;
                    assert(is_first_output(output@, fmt, rate, k));
                    assert(is_pick(
                        input@,
                        output@,
                        preferred_rates@,
                        fmt,
                        i as int,
                        k,
                        choice,
                    ));
                }
                let picked = Some(choice);
                assert(picked->0 == choice);
                return picked;
            }
        }
        i = i + 1;
    }
    None
}

/// The default configuration of the output device, where no preferred rate was common: it serves
/// if it has the given layout and the input device can record at its rate.
pub fn pick_default_format(
    input: &[FormatRange],
    fmt: SampleFormat,
    default: DefaultFormat,
) -> (r: Result<(u32, u16), AudioError>)
    ensures
        r == if default.format == fmt && input_supports(input@, fmt, default.rate) {
            Ok::<(u32, u16), AudioError>((default.rate, default.channels))
        } else {
            Err(AudioError::NoCommonFormat)
        },
{
    if default.format == fmt && supports_in(input, fmt, default.rate) {
        return Ok((default.rate, default.channels));
    }
    Err(AudioError::NoCommonFormat)
}

/// A preferred format that was picked is one that both devices support, and no other choice fits:
/// the devices and the preferences determine it.
pub proof fn law_pick_is_common_and_unique(
    input: Seq<FormatRange>,
    output: Seq<FormatRange>,
    rates: Seq<u32>,
    fmt: SampleFormat,
    i: int,
    k: int,
    choice: (u32, u16),
    j: int,
    l: int,
    other: (u32, u16),
)
    requires
        is_pick(input, output, rates, fmt, i, k, choice),
        is_pick(input, output, rates, fmt, j, l, other),
    ensures
        input_supports(input, fmt, choice.0),
        output[k].offers(fmt, choice.0),
        choice == other,
{
    assert(i == j) by {
        if i < j {
            assert(!is_common(input, output, fmt, rates[i]));
        }
        if j < i {
            assert(!is_common(input, output, fmt, rates[j]));
        }
    }
    assert(k == l) by {
        if k < l {
            assert(!output[k].offers(fmt, rates[i]));
        }
        if l < k {
            assert(!output[l].offers(fmt, rates[i]));
        }
    }
}

/// The audio side of a call, apart from the devices themselves.
pub struct Audio {
    sample_rate: u32,
    out_channels: u16,
    cap_prod: Option<SampleProducer>,
    cap_cons: Option<SampleConsumer>,
    play_prod: Option<SampleProducer>,
    play_cons: Option<SampleConsumer>,
    cap_occupancy: Arc<AtomicUsize>,
    play_occupancy: Arc<AtomicUsize>,
    capacity: usize,
}

/// What an [`Audio`] holds.
pub struct AudioState {
    pub sample_rate: u32,
    pub out_channels: u16,
    pub capacity: usize,
    pub cap_prod: Option<SampleProducer>,
    pub cap_cons: Option<SampleConsumer>,
    pub play_prod: Option<SampleProducer>,
    pub play_cons: Option<SampleConsumer>,
    pub cap_occupancy: Arc<AtomicUsize>,
    pub play_occupancy: Arc<AtomicUsize>,
}

impl AudioState {
    /// What holds at all times: each ring was made for five seconds of samples.
    pub open spec fn wf(self) -> bool {
        &&& self.sample_rate > 0
        &&& self.capacity == 5 * self.sample_rate
        &&& self.cap_prod matches Some(half) ==> crate::ring::ring_capacity(half) == self.capacity
        &&& self.play_prod matches Some(half) ==> crate::ring::ring_capacity(half) == self.capacity
    }
}

impl View for Audio {
    type V = AudioState;

    closed spec fn view(&self) -> AudioState {
        AudioState {
            sample_rate: self.sample_rate,
            out_channels: self.out_channels,
            capacity: self.capacity,
            cap_prod: self.cap_prod,
            cap_cons: self.cap_cons,
            play_prod: self.play_prod,
            play_cons: self.play_cons,
            cap_occupancy: self.cap_occupancy,
            play_occupancy: self.play_occupancy,
        }
    }
}

/// What taking a half out of its place does: the place is empty afterwards, and the half is handed
/// out where it was still there, else the request is refused.
pub open spec fn handed_out<T>(
    before: Option<T>,
    after: Option<T>,
    refusal: AudioError,
    r: Result<T, AudioError>,
) -> bool {
    &&& after is None
    &&& r == match before {
        Some(half) => Ok::<T, AudioError>(half),
        None => Err(refusal),
    }
}

/// A half is handed out once: whoever asks again is refused, and nothing changes.
pub proof fn law_half_is_handed_out_once<T>(
    first: Option<T>,
    second: Option<T>,
    third: Option<T>,
    refusal: AudioError,
    r: Result<T, AudioError>,
    again: Result<T, AudioError>,
)
    requires
        handed_out(first, second, refusal, r),
        handed_out(second, third, refusal, again),
    ensures
        again == Err::<T, AudioError>(refusal),
        third == second,
{
}

/// Whether `counter` is what the standard library makes of a counter that starts at `n`.
pub open spec fn starts_at(counter: Arc<AtomicUsize>, n: usize) -> bool {
    call_ensures(AtomicUsize::new, (n,), *counter)
}

/// What `make` makes of `n`.
fn made<F: Fn(usize) -> AtomicUsize>(make: F, n: usize) -> (counter: AtomicUsize)
    requires
        call_requires(make, (n,)),
    ensures
        call_ensures(make, (n,), counter),
{
    make(n)
}

impl Audio {
    /// Sets up two empty rings of five seconds each: one from the capture stream to whoever takes
    /// its consumer, one from whoever takes its producer to the playback stream. Both counters
    /// start at zero.
    pub fn new(sample_rate: u32, out_channels: u16) -> (a: Self)
        requires
            0 < sample_rate,
            20 * sample_rate <= isize::MAX,
        ensures
            a@.wf(),
            a@.sample_rate == sample_rate,
            a@.out_channels == out_channels,
            a@.cap_prod is Some && a@.cap_cons is Some,
            a@.play_prod is Some && a@.play_cons is Some,
            crate::ring::pushes(a@.cap_prod->0) == Seq::<(u32, bool)>::empty(),
            crate::ring::pops(a@.cap_cons->0) == Seq::<Option<u32>>::empty(),
            crate::ring::pushes(a@.play_prod->0) == Seq::<(u32, bool)>::empty(),
            crate::ring::pops(a@.play_cons->0) == Seq::<Option<u32>>::empty(),
            crate::ring::is_one_ring(a@.cap_prod->0, a@.cap_cons->0),
            crate::ring::is_one_ring(a@.play_prod->0, a@.play_cons->0),
            starts_at(a@.cap_occupancy, 0),
            starts_at(a@.play_occupancy, 0),
    {
        let capacity = (sample_rate as usize) * 5;
        let (cap_prod, cap_cons) = sample_ring(capacity);
        let (play_prod, play_cons) = sample_ring(capacity);
        Audio {
            sample_rate,
            out_channels,
            cap_prod: Some(cap_prod),
            cap_cons: Some(cap_cons),
            play_prod: Some(play_prod),
            play_cons: Some(play_cons),
            cap_occupancy: Arc::new(made(AtomicUsize::new, 0)),
            play_occupancy: Arc::new(made(AtomicUsize::new, 0)),
            capacity,
        }
    }

    /// The samples in a frame of 20 ms.
    pub fn frame_samples(&self) -> (n: usize)
        ensures
            n == self@.sample_rate / 50,
    {
        (self.sample_rate as usize) / 50
    }

    /// The sample rate in hertz.
    pub fn sample_rate(&self) -> (rate: u32)
        ensures
            rate == self@.sample_rate,
    {
        self.sample_rate
    }

    /// The channels of the output device.
    pub fn out_channels(&self) -> (channels: u16)
        ensures
            channels == self@.out_channels,
    {
        self.out_channels
    }

    /// The shared counter of samples that wait in the capture ring.
    pub fn capture_occupancy_arc(&self) -> (counter: Arc<AtomicUsize>)
        ensures
            counter == self@.cap_occupancy,
    {
        Arc::clone(&self.cap_occupancy)
    }

    /// The shared counter of samples that wait in the playback ring.
    pub fn playback_occupancy_arc(&self) -> (counter: Arc<AtomicUsize>)
        ensures
            counter == self@.play_occupancy,
    {
        Arc::clone(&self.play_occupancy)
    }

    /// Hands out the half that takes captured samples out; only once.
    pub fn take_capture_consumer(&mut self) -> (r: Result<SampleConsumer, AudioError>)
        ensures
            handed_out(
                old(self)@.cap_cons,
                final(self)@.cap_cons,
                AudioError::CaptureConsumerTaken,
                r,
            ),
            final(self)@ == (AudioState { cap_cons: None, ..old(self)@ }),
            old(self)@.wf() ==> final(self)@.wf(),
    {
        match self.cap_cons.take() {
            Some(half) => Ok(half),
            None => Err(AudioError::CaptureConsumerTaken),
        }
    }

    /// Hands out the half that puts samples to be played in; only once.
    pub fn take_playback_producer(&mut self) -> (r: Result<SampleProducer, AudioError>)
        ensures
            handed_out(
                old(self)@.play_prod,
                final(self)@.play_prod,
                AudioError::PlaybackProducerTaken,
                r,
            ),
            final(self)@ == (AudioState { play_prod: None, ..old(self)@ }),
            old(self)@.wf() ==> final(self)@.wf(),
    {
        match self.play_prod.take() {
            Some(half) => Ok(half),
            None => Err(AudioError::PlaybackProducerTaken),
        }
    }

    /// Hands the capture stream the half that it fills; only once.
    pub fn start_capture(&mut self) -> (r: Result<SampleProducer, AudioError>)
        ensures
            handed_out(
                old(self)@.cap_prod,
                final(self)@.cap_prod,
                AudioError::CaptureStarted,
                r,
            ),
            final(self)@ == (AudioState { cap_prod: None, ..old(self)@ }),
            old(self)@.wf() ==> final(self)@.wf(),
    {
        match self.cap_prod.take() {
            Some(half) => Ok(half),
            None => Err(AudioError::CaptureStarted),
        }
    }

    /// Hands the playback stream the half that it drains; only once.
    pub fn start_playback(&mut self) -> (r: Result<SampleConsumer, AudioError>)
        ensures
            handed_out(
                old(self)@.play_cons,
                final(self)@.play_cons,
                AudioError::PlaybackStarted,
                r,
            ),
            final(self)@ == (AudioState { play_cons: None, ..old(self)@ }),
            old(self)@.wf() ==> final(self)@.wf(),
    {
        match self.play_cons.take() {
            Some(half) => Ok(half),
            None => Err(AudioError::PlaybackStarted),
        }
    }

    /// The number of samples that each ring holds.
    pub fn playback_capacity(&self) -> (n: usize)
        ensures
            n == self@.capacity,
    {
        self.capacity
    }
}

/// The occupancy of a ring after `pushed` more samples went in: never more than its capacity.
pub open spec fn fuller(current: nat, pushed: nat, capacity: nat) -> nat {
    if current + pushed <= capacity {
        current + pushed
    } else {
        capacity
    }
}

/// The occupancy of a ring after `popped` samples were taken out: never below zero.
pub open spec fn emptier(current: nat, popped: nat) -> nat {
    if popped <= current {
        (current - popped) as nat
    } else {
        0
    }
}

/// The counter of a ring's samples after `pushed` more went in.
pub fn occupancy_after_push(current: usize, pushed: usize, capacity: usize) -> (next: usize)
    requires
        current + pushed <= usize::MAX,
    ensures
        next == fuller(current as nat, pushed as nat, capacity as nat),
{
    let sum = current + pushed;
    if sum <= capacity {
        sum
    } else {
        capacity
    }
}

/// The counter of a ring's samples after `popped` were taken out.
pub fn occupancy_after_pop(current: usize, popped: usize) -> (next: usize)
    ensures
        next == emptier(current as nat, popped as nat),
{
    current.saturating_sub(popped)
}

/// The counter never leaves the range from zero to the capacity, and what goes in and comes out
/// again cancels as long as it fits.
pub proof fn law_occupancy_stays_in_range(current: nat, count: nat, capacity: nat)
    requires
        current <= capacity,
    ensures
        fuller(current, count, capacity) <= capacity,
        emptier(current, count) <= capacity,
        current + count <= capacity ==> emptier(fuller(current, count, capacity), count)
            == current,
{
}

/// A mono frame spread over `channels` channels: each sample as often as there are channels.
pub open spec fn spread(frame: Seq<u32>, channels: nat) -> Seq<u32> {
    Seq::new(frame.len() * channels, |i: int| frame[i / channels as int])
}

/// Spreads a mono frame over `channels` channels.
pub fn spread_frame(frame: &[u32], channels: usize) -> (out: Vec<u32>)
    ensures
        out@ == spread(frame@, channels as nat),
{
    let mut out: Vec<u32> = Vec::new();
    let mut f: usize = 0;
    assert(0 * channels == 0) by (nonlinear_arith);
    assert(out@ =~= spread(frame@.subrange(0, 0), channels as nat));
    while f < frame.len()
        invariant
            f <= frame.len(),
            out@ == spread(frame@.subrange(0, f as int), channels as nat),
        decreases frame.len() - f,
    {
        let ghost start = out@;
        let mut ch: usize = 0;
        assert(out@ =~= start + Seq::new(0, |i: int| frame@[f as int]));
        while ch < channels
            invariant
                ch <= channels,
                f < frame.len(),
                out@ == start + Seq::new(ch as nat, |i: int| frame@[f as int]),
            decreases channels - ch,
        {
            out.push(frame[f]);
            ch = ch + 1;
            assert(out@ =~= start + Seq::new(ch as nat, |i: int| frame@[f as int]));
        }
        proof {
            lemma_spread_push(frame@.subrange(0, f as int), frame@[f as int], channels as nat);
            assert(frame@.subrange(0, f as int).push(frame@[f as int]) =~= frame@.subrange(
                0,
                f + 1,
            ));
        }
        f = f + 1;
    }
    assert(frame@.subrange(0, f as int) =~= frame@);
    out
}

/// Fills an output buffer of `len` samples in `channels` channels from the ring: one sample of the
/// ring per frame, in every channel, and silence wherever the ring has none. The tail that is no
/// whole frame is left out. Returns the samples, and how many came from the ring.
pub fn fill_output(cons: &mut SampleConsumer, len: usize, channels: usize) -> (r: (Vec<u32>, usize))
    requires
        channels > 0,
    ensures
        crate::ring::pops(*old(cons)).is_prefix_of(crate::ring::pops(*final(cons))),
        crate::ring::pops(*final(cons)).len() == crate::ring::pops(*old(cons)).len() + len
            / channels,
        ({
            let answers = crate::ring::since(
                crate::ring::pops(*old(cons)),
                crate::ring::pops(*final(cons)),
            );
            &&& r.0@ == spread(crate::ring::heard(answers), channels as nat)
            &&& r.1 == crate::ring::found(answers).len()
        }),
        crate::ring::stream_out(*final(cons)) == crate::ring::stream_out(*old(cons)),
        crate::ring::drained_in_order(*old(cons)) || len / channels > 0
            ==> crate::ring::drained_in_order(*final(cons)),
{
    let (frame, popped) = pop_frame(cons, len / channels);
    (spread_frame(frame.as_slice(), channels), popped)
}

/// One more sample appends one more run of equal samples.
proof fn lemma_spread_push(frame: Seq<u32>, sample: u32, channels: nat)
    ensures
        spread(frame.push(sample), channels) == spread(frame, channels) + Seq::new(
            channels,
            |i: int| sample,
        ),
{
    let n = frame.len();
    let whole = spread(frame.push(sample), channels);
    let parts = spread(frame, channels) + Seq::new(channels, |i: int| sample);
    assert((n + 1) * channels == n * channels + channels) by (nonlinear_arith);
    assert forall|i: int| 0 <= i < whole.len() implies whole[i] == parts[i] by {
        let q = i / channels as int;
        vstd::arithmetic::div_mod::lemma_fundamental_div_mod(i, channels as int);
        if i < n * channels {
            assert(0 <= q < n) by (nonlinear_arith)
                requires
                    0 <= i < n * channels,
                    channels > 0,
                    q == i / channels as int,
            ;
        } else {
            assert(q == n) by (nonlinear_arith)
                requires
                    n * channels <= i < n * channels + channels,
                    channels > 0,
                    q == i / channels as int,
            ;
        }
    }
    assert(whole =~= parts);
}

/// A format is picked wherever some preferred rate lies within a range of the given layout on both
/// devices, with at least one channel to record. It is then a preferred rate no later than that
/// one, within such ranges itself, with the channels of the first output range that offers it.
pub proof fn law_first_common_preference_is_picked(
    input: &[FormatRange],
    output: &[FormatRange],
    rates: &[u32],
    fmt: SampleFormat,
    r: Option<(u32, u16)>,
    i: int,
    j: int,
    k: int,
)
    requires
        call_ensures(pick_common_format, (input, output, rates, fmt), r),
    ensures
        0 <= i < rates@.len() && 0 <= j < input@.len() && 0 <= k < output@.len() && input@[j].format
            == fmt && input@[j].channels >= 1 && input@[j].min_rate <= rates@[i]
            <= input@[j].max_rate && output@[k].format == fmt && output@[k].min_rate <= rates@[i]
            <= output@[k].max_rate ==> r is Some && exists|first: int|
            0 <= first <= i && #[trigger] rates@[first] == (r->0).0,
        r is Some ==> {
            &&& exists|p: int| 0 <= p < rates@.len() && #[trigger] rates@[p] == (r->0).0
            &&& exists|m: int|
                0 <= m < input@.len() && (#[trigger] input@[m]).format == fmt && input@[m].channels
                    >= 1 && input@[m].min_rate <= (r->0).0 <= input@[m].max_rate
            &&& exists|o: int|
                0 <= o < output@.len() && (#[trigger] output@[o]).format == fmt
                    && output@[o].min_rate <= (r->0).0 <= output@[o].max_rate && output@[o].channels
                    == (r->0).1 && forall|q: int|
                    0 <= q < o ==> !((#[trigger] output@[q]).format == fmt && output@[q].min_rate
                        <= (r->0).0 <= output@[q].max_rate)
        },
        call_requires(pick_common_format, (input, output, rates, fmt)),
{
    if 0 <= i < rates@.len() && 0 <= j < input@.len() && 0 <= k < output@.len() && input@[j].format
        == fmt && input@[j].channels >= 1 && input@[j].min_rate <= rates@[i] <= input@[j].max_rate
        && output@[k].format == fmt && output@[k].min_rate <= rates@[i] <= output@[k].max_rate {
        assert(input@[j].offers(fmt, rates@[i]));
        assert(input_supports(input@, fmt, rates@[i]));
        lemma_first_output_exists(output@, fmt, rates@[i], k);
        assert(is_common(input@, output@, fmt, rates@[i]));
    }
    if r is Some {
        let (p, o) = choose|p: int, o: int|
            is_pick(input@, output@, rates@, fmt, p, o, r->0);
        assert(is_pick(input@, output@, rates@, fmt, p, o, r->0));
        assert(rates@[p] == (r->0).0);
        let m = choose|m: int|
            0 <= m < input@.len() && (#[trigger] input@[m]).offers(fmt, rates@[p])
                && input@[m].channels >= 1;
        assert(input@[m].offers(fmt, rates@[p]));
        assert(output@[o].offers(fmt, rates@[p]));
        assert forall|q: int| 0 <= q < o implies !((#[trigger] output@[q]).format == fmt
            && output@[q].min_rate <= (r->0).0 <= output@[q].max_rate) by {
            assert(!output@[q].offers(fmt, rates@[p]));
        }
    }
}

/// Where some output range offers a rate, one is the first to do so.
proof fn lemma_first_output_exists(
    output: Seq<FormatRange>,
    fmt: SampleFormat,
    rate: u32,
    k: int,
)
    requires
        0 <= k < output.len(),
        output[k].offers(fmt, rate),
    ensures
        exists|o: int| is_first_output(output, fmt, rate, o),
    decreases k,
{
    if exists|q: int| 0 <= q < k && (#[trigger] output[q]).offers(fmt, rate) {
        let q = choose|q: int| 0 <= q < k && (#[trigger] output[q]).offers(fmt, rate);
        lemma_first_output_exists(output, fmt, rate, q);
    } else {
        assert(is_first_output(output, fmt, rate, k));
    }
}

/// The default of the output device serves exactly where it has the given layout and its rate lies
/// within an input range of that layout with at least one channel; otherwise there is no common
/// format.
pub proof fn law_default_serves_where_the_input_can_follow(
    input: &[FormatRange],
    fmt: SampleFormat,
    default: DefaultFormat,
    r: Result<(u32, u16), AudioError>,
)
    requires
        call_ensures(pick_default_format, (input, fmt, default), r),
    ensures
        r is Ok <==> default.format == fmt && exists|j: int|
            0 <= j < input@.len() && (#[trigger] input@[j]).format == fmt && input@[j].channels >= 1
                && input@[j].min_rate <= default.rate <= input@[j].max_rate,
        r is Ok ==> (r->Ok_0).0 == default.rate && (r->Ok_0).1 == default.channels,
        r is Err ==> r->Err_0 is NoCommonFormat,
        call_requires(pick_default_format, (input, fmt, default)),
{
    if exists|j: int|
        0 <= j < input@.len() && (#[trigger] input@[j]).format == fmt && input@[j].channels >= 1
            && input@[j].min_rate <= default.rate <= input@[j].max_rate {
        let j = choose|j: int|
            0 <= j < input@.len() && (#[trigger] input@[j]).format == fmt && input@[j].channels >= 1
                && input@[j].min_rate <= default.rate <= input@[j].max_rate;
        assert(input@[j].offers(fmt, default.rate));
    }
    if input_supports(input@, fmt, default.rate) {
        let m = choose|m: int|
            0 <= m < input@.len() && (#[trigger] input@[m]).offers(fmt, default.rate)
                && input@[m].channels >= 1;
        assert(input@[m].format == fmt);
    }
}

/// A new audio side has the rate and the channels that it was given, frames of a fiftieth of a
/// second, rings of five seconds, and two empty rings with both halves there: what the capture
/// stream puts in comes out of the capture consumer, and what the playback producer puts in comes
/// out of the playback stream's half. Both counters start at zero.
pub proof fn law_new_audio_side_is_wired(
    rate: u32,
    channels: u16,
    a: Audio,
    hz: u32,
    ch: u16,
    n: usize,
    capacity: usize,
)
    requires
        call_ensures(Audio::new, (rate, channels), a),
        call_ensures(Audio::sample_rate, (&a,), hz),
        call_ensures(Audio::out_channels, (&a,), ch),
        call_ensures(Audio::frame_samples, (&a,), n),
        call_ensures(Audio::playback_capacity, (&a,), capacity),
    ensures
        hz == rate,
        ch == channels,
        50 * n <= rate < 50 * (n + 1),
        capacity == 5 * rate,
        a@.cap_prod is Some && a@.cap_cons is Some && a@.play_prod is Some && a@.play_cons is Some,
        crate::ring::stream_in(a@.cap_prod->0) == crate::ring::stream_out(a@.cap_cons->0),
        crate::ring::stream_in(a@.play_prod->0) == crate::ring::stream_out(a@.play_cons->0),
        crate::ring::ring_capacity(a@.cap_prod->0) == 5 * rate,
        crate::ring::ring_capacity(a@.play_prod->0) == 5 * rate,
        crate::ring::pushes(a@.cap_prod->0).len() == 0,
        crate::ring::pushes(a@.play_prod->0).len() == 0,
        crate::ring::pops(a@.cap_cons->0).len() == 0,
        crate::ring::pops(a@.play_cons->0).len() == 0,
        call_ensures(AtomicUsize::new, (0usize,), *a@.cap_occupancy),
        call_ensures(AtomicUsize::new, (0usize,), *a@.play_occupancy),
        0 < rate && 20 * rate <= isize::MAX ==> call_requires(Audio::new, (rate, channels)),
{
}

/// The counters that are handed out are the two that the audio side keeps, each under its own name.
pub proof fn law_counters_are_shared(a: Audio, cap: Arc<AtomicUsize>, play: Arc<AtomicUsize>)
    requires
        call_ensures(Audio::capture_occupancy_arc, (&a,), cap),
        call_ensures(Audio::playback_occupancy_arc, (&a,), play),
    ensures
        cap == a@.cap_occupancy,
        play == a@.play_occupancy,
{
}

/// The half that takes captured samples out is handed out as it is where it is still there, and the
/// request is refused where it is not. Nothing else changes.
pub proof fn law_take_capture_consumer_hands_out_its_half(
    a: &mut Audio,
    r: Result<SampleConsumer, AudioError>,
)
    requires
        call_ensures(Audio::take_capture_consumer, (a,), r),
    ensures
        old(a)@.cap_cons is Some ==> r is Ok && r->Ok_0 == old(a)@.cap_cons->0,
        old(a)@.cap_cons is None ==> r is Err && r->Err_0 is CaptureConsumerTaken,
        final(a)@.cap_cons is None,
        final(a)@.cap_prod == old(a)@.cap_prod,
        final(a)@.play_prod == old(a)@.play_prod,
        final(a)@.play_cons == old(a)@.play_cons,
        final(a)@.sample_rate == old(a)@.sample_rate,
        final(a)@.out_channels == old(a)@.out_channels,
        final(a)@.capacity == old(a)@.capacity,
        final(a)@.cap_occupancy == old(a)@.cap_occupancy,
        final(a)@.play_occupancy == old(a)@.play_occupancy,
        call_requires(Audio::take_capture_consumer, (a,)),
{
}

/// The half that puts samples to be played in is handed out as it is where it is still there, and
/// the request is refused where it is not. Nothing else changes.
pub proof fn law_take_playback_producer_hands_out_its_half(
    a: &mut Audio,
    r: Result<SampleProducer, AudioError>,
)
    requires
        call_ensures(Audio::take_playback_producer, (a,), r),
    ensures
        old(a)@.play_prod is Some ==> r is Ok && r->Ok_0 == old(a)@.play_prod->0,
        old(a)@.play_prod is None ==> r is Err && r->Err_0 is PlaybackProducerTaken,
        final(a)@.play_prod is None,
        final(a)@.cap_prod == old(a)@.cap_prod,
        final(a)@.cap_cons == old(a)@.cap_cons,
        final(a)@.play_cons == old(a)@.play_cons,
        final(a)@.sample_rate == old(a)@.sample_rate,
        final(a)@.out_channels == old(a)@.out_channels,
        final(a)@.capacity == old(a)@.capacity,
        final(a)@.cap_occupancy == old(a)@.cap_occupancy,
        final(a)@.play_occupancy == old(a)@.play_occupancy,
        call_requires(Audio::take_playback_producer, (a,)),
{
}

/// The half that the capture stream fills is handed out as it is where it is still there, and the
/// request is refused where it is not. Nothing else changes.
pub proof fn law_start_capture_hands_out_its_half(
    a: &mut Audio,
    r: Result<SampleProducer, AudioError>,
)
    requires
        call_ensures(Audio::start_capture, (a,), r),
    ensures
        old(a)@.cap_prod is Some ==> r is Ok && r->Ok_0 == old(a)@.cap_prod->0,
        old(a)@.cap_prod is None ==> r is Err && r->Err_0 is CaptureStarted,
        final(a)@.cap_prod is None,
        final(a)@.cap_cons == old(a)@.cap_cons,
        final(a)@.play_prod == old(a)@.play_prod,
        final(a)@.play_cons == old(a)@.play_cons,
        final(a)@.sample_rate == old(a)@.sample_rate,
        final(a)@.out_channels == old(a)@.out_channels,
        final(a)@.capacity == old(a)@.capacity,
        final(a)@.cap_occupancy == old(a)@.cap_occupancy,
        final(a)@.play_occupancy == old(a)@.play_occupancy,
        call_requires(Audio::start_capture, (a,)),
{
}

/// The half that the playback stream drains is handed out as it is where it is still there, and the
/// request is refused where it is not. Nothing else changes.
pub proof fn law_start_playback_hands_out_its_half(
    a: &mut Audio,
    r: Result<SampleConsumer, AudioError>,
)
    requires
        call_ensures(Audio::start_playback, (a,), r),
    ensures
        old(a)@.play_cons is Some ==> r is Ok && r->Ok_0 == old(a)@.play_cons->0,
        old(a)@.play_cons is None ==> r is Err && r->Err_0 is PlaybackStarted,
        final(a)@.play_cons is None,
        final(a)@.cap_prod == old(a)@.cap_prod,
        final(a)@.cap_cons == old(a)@.cap_cons,
        final(a)@.play_prod == old(a)@.play_prod,
        final(a)@.sample_rate == old(a)@.sample_rate,
        final(a)@.out_channels == old(a)@.out_channels,
        final(a)@.capacity == old(a)@.capacity,
        final(a)@.cap_occupancy == old(a)@.cap_occupancy,
        final(a)@.play_occupancy == old(a)@.play_occupancy,
        call_requires(Audio::start_playback, (a,)),
{
}

/// A counter goes up by what went in, but never past the capacity; it goes down by what came out,
/// but never below zero.
pub proof fn law_counter_follows_the_ring(
    current: usize,
    count: usize,
    capacity: usize,
    up: usize,
    down: usize,
)
    requires
        call_ensures(occupancy_after_push, (current, count, capacity), up),
        call_ensures(occupancy_after_pop, (current, count), down),
    ensures
        current + count <= capacity ==> up == current + count,
        current + count > capacity ==> up == capacity,
        count <= current ==> down + count == current,
        count > current ==> down == 0,
        current + count <= usize::MAX ==> call_requires(
            occupancy_after_push,
            (current, count, capacity),
        ),
        call_requires(occupancy_after_pop, (current, count)),
{
}

/// In every channel of every frame stands the sample of that frame, whatever its bits, and there is
/// nothing else.
pub proof fn law_every_channel_gets_the_sample(
    frame: &[u32],
    channels: usize,
    out: Vec<u32>,
    f: int,
    c: int,
)
    requires
        call_ensures(spread_frame, (frame, channels), out),
    ensures
        out@.len() == frame@.len() * channels,
        0 <= f < frame@.len() && 0 <= c < channels ==> f * channels + c < out@.len() && out@[f
            * channels + c] == frame@[f],
        call_requires(spread_frame, (frame, channels)),
{
    if 0 <= f < frame@.len() && 0 <= c < channels {
        lemma_spread_place(frame@, channels as nat, f, c);
    }
}

/// Where the sample of a frame stands in a channel.
proof fn lemma_spread_place(frame: Seq<u32>, channels: nat, f: int, c: int)
    requires
        0 <= f < frame.len(),
        0 <= c < channels,
    ensures
        0 <= f * channels + c < frame.len() * channels,
        spread(frame, channels)[f * channels + c] == frame[f],
{
    let len = frame.len() as int;
    assert(0 <= f * channels + c < len * channels) by (nonlinear_arith)
        requires
            0 <= f < len,
            0 <= c < channels,
    ;
    assert((f * channels + c) / channels as int == f) by {
        vstd::arithmetic::div_mod::lemma_fundamental_div_mod_converse(
            f * channels + c,
            channels as int,
            f,
            c,
        );
    }
}

/// An output buffer asks the ring once per whole frame: every channel of a frame gets the ring's
/// answer to it, whatever its bits, or zero where the ring had none, and the count is that of the
/// samples.
pub proof fn law_output_is_what_the_ring_answered(
    cons: &mut SampleConsumer,
    len: usize,
    channels: usize,
    r: (Vec<u32>, usize),
    f: int,
    c: int,
)
    requires
        call_ensures(fill_output, (cons, len, channels), r),
        channels > 0,
    ensures
        r.0@.len() == (len / channels) * channels,
        crate::ring::pops(*final(cons)).len() == crate::ring::pops(*old(cons)).len() + len
            / channels,
        0 <= f < len / channels && 0 <= c < channels ==> r.0@[f * channels + c] == match
            crate::ring::pops(*final(cons))[crate::ring::pops(*old(cons)).len() + f] {
            Some(v) => v,
            None => 0,
        },
        r.1 == crate::ring::pops(*final(cons)).skip(
            crate::ring::pops(*old(cons)).len() as int,
        ).filter(|a: Option<u32>| a is Some).len(),
        crate::ring::stream_out(*final(cons)) == crate::ring::stream_out(*old(cons)),
        len >= channels ==> crate::ring::pops(*final(cons)).filter(
            |a: Option<u32>| a is Some,
        ).map_values(|a: Option<u32>| a->0).is_prefix_of(crate::ring::stream_out(*final(cons))),
        call_requires(fill_output, (cons, len, channels)),
{
    let before = crate::ring::pops(*old(cons));
    let after = crate::ring::pops(*final(cons));
    let answers = crate::ring::since(before, after);
    crate::ring::law_what_was_taken_is_kept(seq![], answers);
    crate::ring::law_what_was_taken_is_kept(seq![], after);
    if len >= channels {
        vstd::arithmetic::div_mod::lemma_div_non_zero(len as int, channels as int);
    }
    assert(answers =~= after.skip(before.len() as int));
    if 0 <= f < len / channels && 0 <= c < channels {
        lemma_spread_place(crate::ring::heard(answers), channels as nat, f, c);
        assert(answers[f] == after[before.len() + f]);
    }
}

} // verus!
