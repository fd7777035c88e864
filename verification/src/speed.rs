//! How fast a download goes.
use std::collections::VecDeque;
use vstd::prelude::*;

verus! {

/// How far back samples are kept, in milliseconds.
pub const SPEED_WINDOW_MS: u128 = 5_000;

/// How much time must lie between the samples that a speed is measured from, in milliseconds.
pub const SPEED_MIN_WINDOW_MS: u128 = 1_000;

/// How many bytes were there at some time.
#[derive(Debug, Clone, Copy, PartialEq, Eq, Structural)]
pub struct SpeedSample {
    pub at: u128,
    pub bytes: u64,
}

/// Whether these are the bits of a floating-point number of double precision that is finite and
/// not negative: the sign is clear, and the exponent is not the one kept for the others.
pub open spec fn is_speed(bits: u64) -> bool {
    bits < 0x7ff0_0000_0000_0000
}

/// What a new sample says of the speed.
#[derive(Debug, Clone, Copy, PartialEq, Eq, Structural)]
pub enum SpeedReading {
    /// The speed is the average so far, given by the bits of a floating-point number.
    Settled(u64),
    /// This many bytes came in this many milliseconds: the average is to be brought up to date.
    Measured { delta_bytes: u64, elapsed_ms: u128 },
}

/// Samples of a download, and its average speed.
#[derive(Debug)]
pub struct SpeedMeter {
    pub samples: VecDeque<SpeedSample>,
    /// The average speed in bytes per second, given by the bits of a floating-point number.
    pub ema_bits: u64,
}

/// The samples with a new one. One that came at the time of the last replaces it.
pub open spec fn with_sample(samples: Seq<SpeedSample>, sample: SpeedSample) -> Seq<SpeedSample> {
    if samples.len() > 0 && samples.last().at == sample.at {
        samples.drop_last().push(sample)
    } else {
        samples.push(sample)
    }
}

/// The samples without those that are too old, but with the last two.
pub open spec fn in_window(samples: Seq<SpeedSample>, now: u128) -> Seq<SpeedSample>
    decreases samples.len(),
{
    if samples.len() > 2 && now - samples.first().at > SPEED_WINDOW_MS {
        in_window(samples.drop_first(), now)
    } else {
        samples
    }
}

/// What the samples say of the speed.
pub open spec fn reading_of(samples: Seq<SpeedSample>, ema_bits: u64) -> SpeedReading {
    let elapsed = samples.last().at - samples.first().at;
    let delta = samples.last().bytes - samples.first().bytes;
    if elapsed < SPEED_MIN_WINDOW_MS || delta <= 0 {
        SpeedReading::Settled(ema_bits)
    } else {
        SpeedReading::Measured { delta_bytes: delta as u64, elapsed_ms: elapsed as u128 }
    }
}

/// The meter after a new number of bytes, and what it says of the speed. Fewer bytes than before
/// start it anew; as many as before leave it as it is.
pub open spec fn recorded(
    samples: Seq<SpeedSample>,
    ema_bits: u64,
    sample: SpeedSample,
) -> (Seq<SpeedSample>, u64, SpeedReading) {
    if sample.bytes < samples.last().bytes {
        (seq![sample], 0, SpeedReading::Settled(0))
    } else if sample.bytes == samples.last().bytes {
        (samples, ema_bits, SpeedReading::Settled(ema_bits))
    } else {
        let kept = in_window(with_sample(samples, sample), sample.at);
        (kept, ema_bits, reading_of(kept, ema_bits))
    }
}

/// Whether the bytes only grow from sample to sample.
pub open spec fn bytes_grow(samples: Seq<SpeedSample>) -> bool {
    forall|i: int, j: int|
        0 <= i < j < samples.len() ==> (#[trigger] samples[i]).bytes < (#[trigger] samples[j]).bytes
}

proof fn lemma_in_window(samples: Seq<SpeedSample>, now: u128)
    requires
        samples.len() > 0,
        bytes_grow(samples),
    ensures
        ({
            let kept = in_window(samples, now);
            &&& 0 < kept.len() <= samples.len()
            &&& kept.last() == samples.last()
            &&& bytes_grow(kept)
            &&& kept.len() <= 2 || now - kept.first().at <= SPEED_WINDOW_MS
        }),
    decreases samples.len(),
{
    if samples.len() > 2 && now - samples.first().at > SPEED_WINDOW_MS {
        assert(bytes_grow(samples.drop_first()));
        lemma_in_window(samples.drop_first(), now);
    }
}

/// A meter always ends with the newest sample, its bytes grow from sample to sample, and it keeps
/// no more than two samples unless they are all recent.
pub proof fn meter_keeps_recent_samples(
    samples: Seq<SpeedSample>,
    ema_bits: u64,
    sample: SpeedSample,
)
    requires
        samples.len() > 0,
        bytes_grow(samples),
        sample.bytes != samples.last().bytes,
    ensures
        ({
            let kept = recorded(samples, ema_bits, sample).0;
            &&& kept.len() > 0
            &&& kept.last() == sample
            &&& bytes_grow(kept)
            &&& kept.len() <= 2 || sample.at - kept.first().at <= SPEED_WINDOW_MS
        }),
{
    if sample.bytes > samples.last().bytes {
        let all = with_sample(samples, sample);
        assert(bytes_grow(all));
        lemma_in_window(all, sample.at);
    }
}

/// A meter that is given a number of bytes always has a sample, and the newest tells that number.
/// Fewer bytes than before start it anew at no speed, as many as before change nothing, and where
/// the reading settles the speed, it is the meter's average, which is finite and not negative.
pub proof fn meter_follows_the_bytes(
    samples: Seq<SpeedSample>,
    ema_bits: u64,
    sample: SpeedSample,
)
    requires
        samples.len() > 0,
        bytes_grow(samples),
        is_speed(ema_bits),
    ensures
        ({
            let (kept, average, reading) = recorded(samples, ema_bits, sample);
            &&& kept.len() > 0
            &&& kept.last().bytes == sample.bytes
            &&& is_speed(average)
            &&& reading matches SpeedReading::Settled(bits) ==> bits == average
            &&& sample.bytes < samples.last().bytes ==> kept == seq![sample] && reading
                == SpeedReading::Settled(0)
            &&& sample.bytes == samples.last().bytes ==> kept == samples && average == ema_bits
                && reading == SpeedReading::Settled(ema_bits)
            &&& reading matches SpeedReading::Measured { delta_bytes, elapsed_ms } ==> delta_bytes
                > 0 && elapsed_ms >= SPEED_MIN_WINDOW_MS
        }),
{
    if sample.bytes != samples.last().bytes {
        meter_keeps_recent_samples(samples, ema_bits, sample);
    }
}

impl SpeedMeter {
    /// There is at least one sample, the bytes only grow, and the average is a speed.
    pub open spec fn wf(self) -> bool {
        self.samples@.len() > 0 && bytes_grow(self.samples@) && is_speed(self.ema_bits)
    }

    /// A meter that starts with this many bytes.
    pub fn new(bytes: u64, at: u128) -> (meter: SpeedMeter)
        ensures
            meter.wf(),
            meter.samples@ == seq![SpeedSample { at, bytes }],
            meter.ema_bits == 0,
    {
        let mut samples: VecDeque<SpeedSample> = VecDeque::new();
        samples.push_back(SpeedSample { at, bytes });
        SpeedMeter { samples, ema_bits: 0 }
    }

    /// Takes in that there are this many bytes now.
    pub fn record(&mut self, bytes: u64, at: u128) -> (reading: SpeedReading)
        requires
            old(self).wf(),
        ensures
            final(self).wf(),
            (final(self).samples@, final(self).ema_bits, reading) == recorded(
                old(self).samples@,
                old(self).ema_bits,
                SpeedSample { at, bytes },
            ),
    {
        let sample = SpeedSample { at, bytes };
        let last = self.samples[self.samples.len() - 1];
        if bytes < last.bytes {
            self.samples.clear();
            self.samples.push_back(sample);
            self.ema_bits = 0;
            assert(self.samples@ == seq![sample]);
            return SpeedReading::Settled(0);
        }
        if bytes == last.bytes {
            return SpeedReading::Settled(self.ema_bits);
        }
        if last.at == at {
            self.samples.pop_back();
            assert(self.samples@ == old(self).samples@.drop_last());
        }
        self.samples.push_back(sample);
        let ghost all = with_sample(old(self).samples@, sample);
        assert(self.samples@ == all);
        assert(bytes_grow(all));
        while self.samples.len() > 2 && older_than_window(self.samples[0].at, at)
            invariant
                in_window(self.samples@, at) == in_window(all, at),
                self.samples@.len() > 0,
                self.ema_bits == old(self).ema_bits,
            decreases self.samples@.len(),
        {
            let ghost before = self.samples@;
            self.samples.pop_front();
            assert(self.samples@ == before.drop_first());
        }
        proof {
            lemma_in_window(all, at);
        }
        let first = self.samples[0];
        let newest = self.samples[self.samples.len() - 1];
        let elapsed_ms: u128 = if newest.at >= first.at {
            newest.at - first.at
        } else {
            0
        };
        let delta_bytes: u64 = if newest.bytes >= first.bytes {
            newest.bytes - first.bytes
        } else {
            0
        };
        if elapsed_ms < SPEED_MIN_WINDOW_MS || delta_bytes == 0 {
            SpeedReading::Settled(self.ema_bits)
        } else {
            SpeedReading::Measured { delta_bytes, elapsed_ms }
        }
    }

    /// Brings the average up to date.
    pub fn settle(&mut self, ema_bits: u64)
        requires
            old(self).wf(),
            is_speed(ema_bits),
        ensures
            final(self).wf(),
            final(self).samples@ == old(self).samples@,
            final(self).ema_bits == ema_bits,
    {
        self.ema_bits = ema_bits;
    }
}

/// Whether a sample is too old to be kept.
fn older_than_window(sampled_at: u128, now: u128) -> (older: bool)
    ensures
        older == (now - sampled_at > SPEED_WINDOW_MS),
{
    now > sampled_at && now - sampled_at > SPEED_WINDOW_MS
}

proof fn lemma_recent_samples_stay(samples: Seq<SpeedSample>, now: u128, i: int)
    requires
        0 <= i < samples.len(),
        now - samples[i].at <= 5_000,
        forall|a: int, b: int|
            0 <= a < b < samples.len() ==> (#[trigger] samples[a]).at <= (#[trigger] samples[b]).at,
    ensures
        in_window(samples, now).len() >= samples.len() - i,
        in_window(samples, now).len() <= samples.len(),
        in_window(samples, now) == samples.skip(samples.len() - in_window(samples, now).len()),
    decreases samples.len(),
{
    if samples.len() > 2 && now - samples.first().at > SPEED_WINDOW_MS {
        let rest = samples.drop_first();
        assert(i > 0);
        assert(rest[i - 1] == samples[i]);
        assert forall|a: int, b: int| 0 <= a < b < rest.len() implies (#[trigger] rest[a]).at <= (
        #[trigger] rest[b]).at by {
            assert(rest[a] == samples[a + 1] && rest[b] == samples[b + 1]);
        }
        lemma_recent_samples_stay(rest, now, i - 1);
        let kept = in_window(rest, now);
        assert(kept =~= samples.skip(samples.len() - kept.len()));
    } else {
        assert(samples.skip(0) =~= samples);
    }
}

/// Where the bytes have grown, every sample of the last five seconds is kept, in order and with the
/// new one behind them.
pub proof fn recent_samples_stay(
    samples: Seq<SpeedSample>,
    ema_bits: u64,
    sample: SpeedSample,
    i: int,
)
    requires
        samples.len() > 0,
        samples.last().bytes < sample.bytes,
        samples.last().at < sample.at,
        forall|a: int, b: int|
            0 <= a < b < samples.len() ==> (#[trigger] samples[a]).at <= (#[trigger] samples[b]).at,
        0 <= i < samples.len(),
        sample.at - samples[i].at <= 5_000,
    ensures
        ({
            let kept = recorded(samples, ema_bits, sample).0;
            let dropped = samples.len() + 1 - kept.len();
            &&& 0 <= dropped <= i
            &&& kept == samples.push(sample).skip(dropped)
        }),
{
    let all = samples.push(sample);
    assert(with_sample(samples, sample) == all);
    assert forall|a: int, b: int| 0 <= a < b < all.len() implies (#[trigger] all[a]).at <= (
    #[trigger] all[b]).at by {
        if b == samples.len() {
            let last = samples.len() - 1;
            assert(samples[a].at <= samples[last].at);
        } else {
            assert(samples[a].at <= samples[b].at);
        }
    }
    lemma_recent_samples_stay(all, sample.at, i);
}

/// A speed is measured from the oldest sample that is kept to the newest, if a second or more lies
/// between them. Otherwise the average stays as it is.
pub proof fn speeds_are_measured_over_a_second(
    samples: Seq<SpeedSample>,
    ema_bits: u64,
    sample: SpeedSample,
)
    requires
        samples.len() > 0,
        bytes_grow(samples),
        samples.last().bytes < sample.bytes,
    ensures
        ({
            let (kept, average, reading) = recorded(samples, ema_bits, sample);
            let elapsed = sample.at - kept[0].at;
            &&& average == ema_bits
            &&& elapsed < 1_000 ==> reading == SpeedReading::Settled(ema_bits)
            &&& elapsed >= 1_000 ==> reading == (SpeedReading::Measured {
                delta_bytes: (sample.bytes - kept[0].bytes) as u64,
                elapsed_ms: elapsed as u128,
            })
        }),
{
    meter_keeps_recent_samples(samples, ema_bits, sample);
    let kept = recorded(samples, ema_bits, sample).0;
    if kept.len() == 1 {
        assert(kept[0] == kept.last());
    } else {
        assert(kept[0].bytes < kept[kept.len() - 1].bytes);
    }
}

/// Bytes that come at the time of the last sample take its place.
pub proof fn samples_of_one_moment_replace_each_other(
    front: Seq<SpeedSample>,
    last: SpeedSample,
    ema_bits: u64,
    sample: SpeedSample,
)
    requires
        last.at == sample.at,
        last.bytes < sample.bytes,
        front.len() <= 1,
    ensures
        recorded(front.push(last), ema_bits, sample).0 == front.push(sample),
{
    assert(front.push(last).drop_last() =~= front);
}

} // verus!
