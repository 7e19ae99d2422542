//! Audio input: which device, which of its channels, and how its samples get
//! into the rings.
use ringbuf::Producer;
use vstd::prelude::*;

use crate::ring;
use crate::ring::{push, push_slice};
use crate::text;
use crate::text::{chars_of, contains, parse_decimal, same, split_commas, to_lowercase};

verus! {

/// The device channels to plot, 1-based, one per input, if any were asked for.
pub type ChannelMap = Option<Vec<usize>>;

/// The channel number that a text spells: a number from one on.
pub open spec fn channel(s: Seq<char>) -> Option<usize> {
    match text::decimal_within(s, usize::MAX as int) {
        Some(n) => if n >= 1 {
            Some(n as usize)
        } else {
            None
        },
        None => None,
    }
}

/// The channel numbers that a text lists: numbers from one on, between commas.
pub open spec fn channel_list(s: Seq<char>) -> Option<Seq<usize>> {
    let listed = text::pieces(s);
    if forall|k: int| 0 <= k < listed.len() ==> channel(#[trigger] listed[k]) is Some {
        Some(Seq::new(listed.len(), |k: int| channel(listed[k])->0))
    } else {
        None
    }
}

/// Reads a comma separated list of 1-based channel numbers.
pub fn parse_channels(raw: &str) -> (r: Option<Vec<usize>>)
    ensures
        r is Some <==> channel_list(raw@) is Some,
        r matches Some(map) ==> map@ == channel_list(raw@)->0,
        r matches Some(map) ==> map@.len() == text::pieces(raw@).len(),
        r matches Some(map) ==> forall|k: int| 0 <= k < map@.len() ==> #[trigger] map@[k] >= 1,
{
    let chars: Vec<char> = chars_of(raw);
    let listed: Vec<Vec<char>> = split_commas(chars.as_slice());
    let mut map: Vec<usize> = Vec::new();
    let mut k: usize = 0;
    while k < listed.len()
        invariant
            listed@.len() == text::pieces(raw@).len(),
            forall|i: int|
                0 <= i < listed@.len() ==> (#[trigger] listed@[i])@ == text::pieces(raw@)[i],
            0 <= k <= listed@.len(),
            map@.len() == k,
            forall|i: int|
                0 <= i < k ==> channel(#[trigger] text::pieces(raw@)[i]) == Some(map@[i]),
        decreases listed@.len() - k,
    {
        proof {
            assert(listed@[k as int]@ == text::pieces(raw@)[k as int]);
        }
        match parse_decimal(listed[k].as_slice(), usize::MAX as u64) {
            Some(n) => {
                if n == 0 {
                    assert(channel(text::pieces(raw@)[k as int]) is None);
                    return None;
                }
                map.push(n as usize);
            },
            None => {
                assert(channel(text::pieces(raw@)[k as int]) is None);
                return None;
            },
        }
        k = k + 1;
    }
    proof {
        assert(map@ =~= Seq::new(
            text::pieces(raw@).len(),
            |i: int| channel(text::pieces(raw@)[i])->0,
        ));
        assert forall|i: int| 0 <= i < map@.len() implies #[trigger] map@[i] >= 1 by {
            assert(channel(text::pieces(raw@)[i]) == Some(map@[i]));
        }
    }
    Some(map)
}

/// Which input device to open.
#[derive(Clone, Copy, Debug, PartialEq, Eq, Structural)]
pub enum DeviceChoice {
    /// The device at this place of the list.
    Listed(usize),
    /// The default device.
    Default,
}

/// Why capture cannot start.
#[derive(Debug)]
pub enum StartError {
    /// No input device matches this name.
    NoMatch(String),
    /// There is no default input device.
    NoDefault,
    /// The device does not have this (1-based) channel.
    NoSuchChannel(usize),
}

/// Whether a device of this name, if it has one, is meant by `wanted`: in lower
/// case, the one occurs in the other.
pub open spec fn meant(name: Option<String>, wanted: Seq<char>) -> bool {
    name matches Some(n) && text::occurs(text::lowercased(wanted), text::lowercased(n@))
}

/// Whether a device name in lower case is meant by a wanted name in lower case.
pub fn name_matches(lowered_name: &str, lowered_wanted: &str) -> (r: bool)
    ensures
        r == text::occurs(lowered_wanted@, lowered_name@),
{
    let name: Vec<char> = chars_of(lowered_name);
    let wanted: Vec<char> = chars_of(lowered_wanted);
    contains(name.as_slice(), wanted.as_slice())
}

/// Picks the input device: the first whose name is meant, or the default where
/// no name is given.
pub fn choose_device(
    names: &Vec<Option<String>>,
    wanted: Option<&str>,
    has_default: bool,
) -> (r: Result<DeviceChoice, StartError>)
    ensures
        wanted is None && has_default ==> r == Ok::<DeviceChoice, StartError>(
            DeviceChoice::Default,
        ),
        wanted is None && !has_default ==> r == Err::<DeviceChoice, StartError>(
            StartError::NoDefault,
        ),
        wanted matches Some(w) ==> match r {
            Ok(DeviceChoice::Listed(i)) => {
                &&& i < names@.len()
                &&& meant(names@[i as int], w@)
                &&& forall|k: int| 0 <= k < i ==> !meant(#[trigger] names@[k], w@)
            },
            Ok(DeviceChoice::Default) => false,
            Err(StartError::NoMatch(name)) => {
                &&& name@ == w@
                &&& forall|k: int| 0 <= k < names@.len() ==> !meant(#[trigger] names@[k], w@)
            },
            Err(_) => false,
        },
{
    let name: &str = match wanted {
        None => {
            return if has_default {
                Ok(DeviceChoice::Default)
            } else {
                Err(StartError::NoDefault)
            };
        },
        Some(name) => name,
    };
    let lowered: String = to_lowercase(name);
    let mut i: usize = 0;
    while i < names.len()
        invariant
            wanted == Some(name),
            lowered@ == text::lowercased(name@),
            0 <= i <= names@.len(),
            forall|k: int| 0 <= k < i ==> !meant(#[trigger] names@[k], name@),
        decreases names@.len() - i,
    {
        if let Some(device) = &names[i] {
            if name_matches(to_lowercase(device.as_str()).as_str(), lowered.as_str()) {
                return Ok(DeviceChoice::Listed(i));
            }
        }
        i = i + 1;
    }
    Err(StartError::NoMatch(name.to_owned()))
}

/// The device channels, 0-based, that feed the inputs where none were asked
/// for: the first ones, the last one repeated where the device has too few.
pub open spec fn default_map(available: int, inputs: nat) -> Seq<usize> {
    Seq::new(
        inputs,
        |i: int|
            if i < available {
                i as usize
            } else if available > 0 {
                (available - 1) as usize
            } else {
                0usize
            },
    )
}

/// Channel `k` of those asked for is the first that the device does not have.
pub open spec fn first_missing(asked: Seq<usize>, available: int, k: int) -> bool {
    &&& !(1 <= asked[k] <= available)
    &&& forall|j: int| 0 <= j < k ==> 1 <= #[trigger] asked[j] <= available
}

/// How a device feeds the inputs.
#[derive(Debug)]
pub struct StreamPlan {
    /// For each input, the device channel that feeds it, 0-based.
    pub map: Vec<usize>,
    /// Whether the device has too few channels, so that its last one is repeated.
    pub repeats: bool,
}

/// Decides which channels of a device feed the inputs.
///
/// Channels that were asked for are taken as they are, or refused where the
/// device does not have them. Substituting another channel would draw a plot
/// that looks plausible and is wrong.
pub fn plan_stream(channels: &ChannelMap, available: usize, inputs: usize) -> (r: Result<
    StreamPlan,
    StartError,
>)
    ensures
        channels matches Some(asked) ==> match r {
            Ok(plan) => {
                &&& plan.map@.len() == asked@.len()
                &&& forall|k: int|
                    0 <= k < asked@.len() ==> {
                        &&& 1 <= #[trigger] asked@[k] <= available
                        &&& plan.map@[k] == asked@[k] - 1
                    }
                &&& !plan.repeats
            },
            Err(StartError::NoSuchChannel(c)) => exists|k: int|
                0 <= k < asked@.len() && asked@[k] == c && #[trigger] first_missing(
                    asked@,
                    available as int,
                    k,
                ),
            Err(_) => false,
        },
        channels is None ==> match r {
            Ok(plan) => {
                &&& plan.map@ == default_map(available as int, inputs as nat)
                &&& plan.repeats == (available < inputs)
            },
            Err(_) => false,
        },
{
    let mut map: Vec<usize> = Vec::new();
    match channels {
        Some(asked) => {
            let mut k: usize = 0;
            while k < asked.len()
                invariant
                    *channels == Some(*asked),
                    0 <= k <= asked@.len(),
                    map@.len() == k,
                    forall|j: int|
                        0 <= j < k ==> {
                            &&& 1 <= #[trigger] asked@[j] <= available
                            &&& map@[j] == asked@[j] - 1
                        },
                decreases asked@.len() - k,
            {
                let c: usize = asked[k];
                if c < 1 || c > available {
                    assert(asked@[k as int] == c && first_missing(
                        channels->0@,
                        available as int,
                        k as int,
                    ));
                    return Err(StartError::NoSuchChannel(c));
                }
                map.push(c - 1);
                k = k + 1;
            }
            Ok(StreamPlan { map, repeats: false })
        },
        None => {
            let mut i: usize = 0;
            while i < inputs
                invariant
                    0 <= i <= inputs,
                    map@ == default_map(available as int, i as nat),
                decreases inputs - i,
            {
                let c: usize = if i < available {
                    i
                } else if available > 0 {
                    available - 1
                } else {
                    0
                };
                map.push(c);
                i = i + 1;
                assert(map@ =~= default_map(available as int, i as nat));
            }
            Ok(StreamPlan { map, repeats: available < inputs })
        },
    }
}

/// How many interleaved frames `len` samples make; the last may be cut short.
pub open spec fn frame_count(len: int, channels: int) -> int {
    (len + channels - 1) / channels
}

/// The sample of device channel `c` in frame `k`; a frame that is cut short
/// before the channel gives its last sample.
pub open spec fn frame_sample(data: Seq<u32>, channels: int, k: int, c: int) -> u32 {
    let start = k * channels;
    let size = if channels < data.len() - start {
        channels
    } else {
        data.len() - start
    };
    if c < size {
        data[start + c]
    } else {
        data[start + size - 1]
    }
}

/// The samples of device channel `c` in interleaved data.
pub open spec fn channel_samples(data: Seq<u32>, channels: int, c: int) -> Seq<u32> {
    if channels == 0 {
        Seq::empty()
    } else {
        Seq::new(
            frame_count(data.len() as int, channels) as nat,
            |k: int| frame_sample(data, channels, k, c),
        )
    }
}

/// A producer was handed these samples between two moments, and no others. Those
/// that its ring had room for went in behind the ones before. A sample is refused
/// only after the ring has taken as many as it holds.
pub open spec fn heard(before: Producer<u32>, after: Producer<u32>, samples: Seq<u32>) -> bool {
    let (past, now) = (ring::offers(before), ring::offers(after));
    &&& now.len() == past.len() + samples.len()
    &&& forall|i: int| 0 <= i < past.len() ==> #[trigger] now[i] == past[i]
    &&& forall|i: int|
        past.len() <= i < now.len() ==> (#[trigger] now[i]).0 == samples[i - past.len()]
    &&& forall|i: int|
        past.len() <= i < now.len() && !(#[trigger] now[i]).1 ==> ring::accepted_of(
            now.take(i),
        ).len() >= ring::holds(before)
    &&& ring::holds(after) == ring::holds(before)
    &&& ring::entering(after) == ring::entering(before)
    &&& ring::enters_in_order(before) ==> ring::enters_in_order(after)
}

/// The ring had room for all that its producer was handed between two moments.
pub open spec fn all_taken(before: Producer<u32>, after: Producer<u32>) -> bool {
    forall|i: int|
        ring::offers(before).len() <= i < ring::offers(after).len() ==> (#[trigger] ring::offers(
            after,
        )[i]).1
}

/// Producer `i` was handed its samples of the first `k` frames.
spec fn frames_heard(
    first: Seq<Producer<u32>>,
    now: Seq<Producer<u32>>,
    data: Seq<u32>,
    channels: int,
    map: Seq<usize>,
    i: int,
    k: int,
) -> bool {
    heard(first[i], now[i], channel_samples(data, channels, map[i] as int).take(k))
}

/// De-interleaves one block of device samples into the rings: each input gets
/// the samples of its channel. Samples that a ring has no room for are dropped.
pub fn feed(data: &[u32], channels: usize, map: &Vec<usize>, producers: &mut Vec<Producer<u32>>)
    requires
        map@.len() == old(producers)@.len(),
    ensures
        final(producers)@.len() == old(producers)@.len(),
        forall|i: int|
            0 <= i < old(producers)@.len() ==> #[trigger] heard(
                old(producers)@[i],
                final(producers)@[i],
                channel_samples(data@, channels as int, map@[i] as int),
            ),
{
    if channels == 0 {
        return;
    }
    let size: usize = data.len();
    let mut start: usize = 0;
    let ghost mut k: int = 0;
    let ghost total = frame_count(size as int, channels as int);
    let mut more: bool = size > 0;
    proof {
        lemma_frames_reach(size as int, channels as int, 0);
        assert forall|i: int| 0 <= i < producers@.len() implies #[trigger] frames_heard(
            old(producers)@,
            producers@,
            data@,
            channels as int,
            map@,
            i,
            0,
        ) by {}
    }
    while more
        invariant
            size == data@.len(),
            channels > 0,
            map@.len() == producers@.len(),
            producers@.len() == old(producers)@.len(),
            total == frame_count(size as int, channels as int),
            0 <= k <= total,
            more ==> start == k * channels && start < size,
            !more ==> k == total,
            forall|i: int|
                0 <= i < producers@.len() ==> #[trigger] frames_heard(
                    old(producers)@,
                    producers@,
                    data@,
                    channels as int,
                    map@,
                    i,
                    k,
                ),
        decreases
                if more {
                    size - start
                } else {
                    0
                },
    {
        proof {
            lemma_frames_reach(size as int, channels as int, k);
            lemma_frames_reach(size as int, channels as int, k + 1);
            assert((k + 1) * channels == k * channels + channels) by (nonlinear_arith);
        }
        let left: usize = size - start;
        let frame: usize = if channels < left {
            channels
        } else {
            left
        };
        feed_frame(data, channels, start, frame, map, producers, Ghost(old(producers)@), Ghost(k));
        proof {
            k = k + 1;
        }
        if channels < left {
            start = start + channels;
        } else {
            more = false;
        }
    }
    proof {
        assert forall|i: int| 0 <= i < producers@.len() implies #[trigger] heard(
            old(producers)@[i],
            producers@[i],
            channel_samples(data@, channels as int, map@[i] as int),
        ) by {
            let samples = channel_samples(data@, channels as int, map@[i] as int);
            lemma_frames_reach(size as int, channels as int, 0);
            assert(samples.take(total) =~= samples);
            assert(frames_heard(old(producers)@, producers@, data@, channels as int, map@, i, k));
        }
    }
}

/// Hands the frame at `start` to all producers.
fn feed_frame(
    data: &[u32],
    channels: usize,
    start: usize,
    frame: usize,
    map: &Vec<usize>,
    producers: &mut Vec<Producer<u32>>,
    Ghost(first): Ghost<Seq<Producer<u32>>>,
    Ghost(k): Ghost<int>,
)
    requires
        channels > 0,
        0 <= k < frame_count(data@.len() as int, channels as int),
        start == k * channels,
        start < data@.len(),
        frame == if channels < data@.len() - start {
            channels as int
        } else {
            data@.len() - start
        },
        map@.len() == old(producers)@.len(),
        first.len() == old(producers)@.len(),
        forall|i: int|
            0 <= i < first.len() ==> #[trigger] frames_heard(
                first,
                old(producers)@,
                data@,
                channels as int,
                map@,
                i,
                k,
            ),
    ensures
        final(producers)@.len() == old(producers)@.len(),
        forall|i: int|
            0 <= i < first.len() ==> #[trigger] frames_heard(
                first,
                final(producers)@,
                data@,
                channels as int,
                map@,
                i,
                k + 1,
            ),
{
    let size: usize = data.len();
    let mut i: usize = 0;
    while i < producers.len()
        invariant
            size == data@.len(),
            channels > 0,
            0 <= k < frame_count(size as int, channels as int),
            start == k * channels,
            start < size,
            frame == if channels < size - start {
                channels as int
            } else {
                size - start
            },
            map@.len() == producers@.len(),
            first.len() == producers@.len(),
            producers@.len() == old(producers)@.len(),
            0 <= i <= producers@.len(),
            forall|j: int|
                0 <= j < i ==> #[trigger] frames_heard(
                    first,
                    producers@,
                    data@,
                    channels as int,
                    map@,
                    j,
                    k + 1,
                ),
            forall|j: int|
                i <= j < producers@.len() ==> #[trigger] frames_heard(
                    first,
                    producers@,
                    data@,
                    channels as int,
                    map@,
                    j,
                    k,
                ),
        decreases producers@.len() - i,
    {
        let c: usize = if map[i] < frame {
            map[i]
        } else {
            frame - 1
        };
        let sample: u32 = data[start + c];
        let ghost before = producers@;
        let _ = push(&mut producers[i], sample);
        proof {
            let samples = channel_samples(data@, channels as int, map@[i as int] as int);
            assert(samples[k] == sample);
            assert(frames_heard(first, before, data@, channels as int, map@, i as int, k));
            assert(samples.take(k + 1) =~= samples.take(k).push(sample));
            let (past, now) = (ring::offers(before[i as int]), ring::offers(producers@[i as int]));
            assert(now.take(past.len() as int) =~= past);
            assert forall|j: int| 0 <= j < past.len() implies now.take(j) == #[trigger] past.take(
                j,
            ) && now[j] == past[j] by {
                assert(now.take(j) =~= past.take(j));
            }
            assert(frames_heard(first, producers@, data@, channels as int, map@, i as int, k + 1));
            assert forall|j: int| 0 <= j < i implies #[trigger] frames_heard(
                first,
                producers@,
                data@,
                channels as int,
                map@,
                j,
                k + 1,
            ) by {
                assert(frames_heard(first, before, data@, channels as int, map@, j, k + 1));
            }
            assert forall|j: int| i < j < producers@.len() implies #[trigger] frames_heard(
                first,
                producers@,
                data@,
                channels as int,
                map@,
                j,
                k,
            ) by {
                assert(frames_heard(first, before, data@, channels as int, map@, j, k));
            }
        }
        i = i + 1;
    }
}

/// Frame `k` exists just where its first sample does.
proof fn lemma_frames_reach(len: int, channels: int, k: int)
    requires
        len >= 0,
        channels > 0,
        k >= 0,
    ensures
        k < frame_count(len, channels) <==> k * channels < len,
        frame_count(len, channels) >= 0,
{
    let q = frame_count(len, channels);
    vstd::arithmetic::div_mod::lemma_fundamental_div_mod(len + channels - 1, channels);
    assert((k < q <==> k * channels < len) && q >= 0) by (nonlinear_arith)
        requires
            len + channels - 1 == channels * q + (len + channels - 1) % channels,
            0 <= (len + channels - 1) % channels < channels,
            channels > 0,
            len >= 0,
    ;
}

/// Hands one block per port to the rings, and says whether some ring had no room
/// for all of its block.
pub fn process(blocks: &Vec<Vec<u32>>, producers: &mut Vec<Producer<u32>>) -> (overrun: bool)
    ensures
        final(producers)@.len() == old(producers)@.len(),
        forall|i: int|
            0 <= i < old(producers)@.len() && i < blocks@.len() ==> #[trigger] heard(
                old(producers)@[i],
                final(producers)@[i],
                blocks@[i]@,
            ),
        forall|i: int|
            blocks@.len() <= i < old(producers)@.len() ==> #[trigger] final(producers)@[i] == old(
                producers,
            )@[i],
        overrun <==> exists|i: int|
            0 <= i < old(producers)@.len() && i < blocks@.len() && !#[trigger] all_taken(
                old(producers)@[i],
                final(producers)@[i],
            ),
{
    let mut overrun: bool = false;
    let mut i: usize = 0;
    while i < producers.len() && i < blocks.len()
        invariant
            producers@.len() == old(producers)@.len(),
            0 <= i <= producers@.len(),
            i <= blocks@.len(),
            forall|j: int|
                0 <= j < i ==> #[trigger] heard(
                    old(producers)@[j],
                    producers@[j],
                    blocks@[j]@,
                ),
            forall|j: int|
                i <= j < producers@.len() ==> #[trigger] producers@[j] == old(producers)@[j],
            overrun <==> exists|j: int|
                0 <= j < i && !#[trigger] all_taken(old(producers)@[j], producers@[j]),
        decreases producers@.len() - i,
    {
        let ghost before = producers@;
        let samples: &[u32] = blocks[i].as_slice();
        let n: usize = push_slice(&mut producers[i], samples);
        let ghost was = overrun;
        if n != samples.len() {
            overrun = true;
        }
        proof {
            let (past, now) = (old(producers)@[i as int], producers@[i as int]);
            let (start, end) = (ring::offers(past).len() as int, ring::offers(past).len() + n);
            assert forall|j: int|
                start <= j < ring::offers(now).len() && !(#[trigger] ring::offers(
                    now,
                )[j]).1 implies ring::accepted_of(ring::offers(now).take(j)).len()
                >= ring::holds(past) by {
                let upto = ring::offers(now).take(j);
                ring::lemma_accepted_grows(upto, end);
                ring::lemma_accepted_grows(upto.take(end), start);
                assert(upto.take(end).take(start) =~= ring::offers(past));
            }
            assert(heard(past, now, blocks@[i as int]@));
            assert(all_taken(past, now) <==> n == samples@.len()) by {
                if n < samples@.len() {
                    assert(!ring::offers(now)[ring::offers(past).len() + n].1);
                }
            }
            assert forall|j: int| 0 <= j < i implies #[trigger] heard(
                old(producers)@[j],
                producers@[j],
                blocks@[j]@,
            ) by {
                assert(heard(old(producers)@[j], before[j], blocks@[j]@));
            }
            if was {
                let j = choose|j: int|
                    0 <= j < i && !#[trigger] all_taken(old(producers)@[j], before[j]);
                assert(!all_taken(old(producers)@[j], producers@[j]));
            }
        }
        i = i + 1;
    }
    overrun
}

/// A ring with room for all that its producer is handed takes all of it.
pub proof fn law_room_takes_everything(
    before: Producer<u32>,
    after: Producer<u32>,
    samples: Seq<u32>,
)
    requires
        heard(before, after, samples),
        ring::accepted(before).len() + samples.len() <= ring::holds(before),
    ensures
        all_taken(before, after),
{
    let (past, now) = (ring::offers(before), ring::offers(after));
    assert forall|i: int| past.len() <= i < now.len() implies (#[trigger] now[i]).1 by {
        ring::lemma_accepted_grows(now.take(i), past.len() as int);
        assert(now.take(i).take(past.len() as int) =~= past);
    }
}

/// An input device, as the system reports it.
#[derive(Debug)]
pub struct InputDevice {
    pub name: Option<String>,
    pub channels: Option<u16>,
}

/// A line of the list of inputs.
#[derive(Debug)]
pub struct InputLine {
    pub name: String,
    pub channels: u16,
    pub default: bool,
}

/// The name to show for a device.
pub open spec fn shown_name(name: Option<String>) -> Seq<char> {
    match name {
        Some(n) => n@,
        None => "<unknown>"@,
    }
}

/// The list of inputs: every device with its name, its channel count (zero
/// where it has none) and whether it bears the name of the default device.
pub fn list_inputs(devices: &Vec<InputDevice>, default: &Option<String>) -> (r: Vec<InputLine>)
    ensures
        r@.len() == devices@.len(),
        forall|i: int|
            0 <= i < r@.len() ==> {
                &&& (#[trigger] r@[i]).name@ == shown_name(devices@[i].name)
                &&& r@[i].channels == match devices@[i].channels {
                    Some(n) => n,
                    None => 0,
                }
                &&& r@[i].default == (shown_name(devices@[i].name) == match default {
                    Some(n) => n@,
                    None => Seq::<char>::empty(),
                })
            },
{
    let marked: String = match default {
        Some(n) => n.clone(),
        None => String::new(),
    };
    let mut lines: Vec<InputLine> = Vec::new();
    let mut i: usize = 0;
    while i < devices.len()
        invariant
            0 <= i <= devices@.len(),
            lines@.len() == i,
            marked@ == match default {
                Some(n) => n@,
                None => Seq::<char>::empty(),
            },
            forall|k: int|
                0 <= k < i ==> {
                    &&& (#[trigger] lines@[k]).name@ == shown_name(devices@[k].name)
                    &&& lines@[k].channels == match devices@[k].channels {
                        Some(n) => n,
                        None => 0,
                    }
                    &&& lines@[k].default == (shown_name(devices@[k].name) == marked@)
                },
        decreases devices@.len() - i,
    {
        let name: String = match &devices[i].name {
            Some(n) => n.clone(),
            None => "<unknown>".to_owned(),
        };
        let channels: u16 = match devices[i].channels {
            Some(n) => n,
            None => 0,
        };
        let default: bool = same(name.as_str(), marked.as_str());
        lines.push(InputLine { name, channels, default });
        i = i + 1;
    }
    lines
}

/// The name of JACK port `i` (0-based).
pub open spec fn port_name(i: int) -> Seq<char> {
    if i == 0 {
        "vis_in_1"@
    } else if i == 1 {
        "vis_in_2"@
    } else {
        "vis_in_3"@
    }
}

/// The names of the JACK ports, one per input.
pub fn ports(inputs: usize) -> (r: Vec<&'static str>)
    requires
        inputs <= 3,
    ensures
        r@.len() == inputs,
        forall|i: int| 0 <= i < inputs ==> (#[trigger] r@[i])@ == port_name(i),
{
    let mut names: Vec<&'static str> = Vec::new();
    if inputs > 0 {
        names.push("vis_in_1");
    }
    if inputs > 1 {
        names.push("vis_in_2");
    }
    if inputs > 2 {
        names.push("vis_in_3");
    }
    names
}

/// A device with enough channels feeds its first ones, each input another.
pub proof fn law_enough_channels_are_distinct(available: int, inputs: nat, i: int, j: int)
    requires
        inputs <= available <= usize::MAX,
        0 <= i < j < inputs,
    ensures
        default_map(available, inputs)[i] == i,
        default_map(available, inputs)[i] != default_map(available, inputs)[j],
{
}

/// A device with too few channels feeds its last one to the last two inputs:
/// these are handed the same samples, whatever the device delivers.
pub proof fn law_few_channels_repeat_the_last(available: int, inputs: nat, data: Seq<u32>)
    requires
        0 <= available < inputs,
        2 <= inputs <= usize::MAX,
    ensures
        default_map(available, inputs)[inputs - 1] == default_map(available, inputs)[inputs - 2],
        channel_samples(data, available, default_map(available, inputs)[inputs - 1] as int)
            == channel_samples(data, available, default_map(available, inputs)[inputs - 2] as int),
{
}

/// A block of whole frames is de-interleaved sample by sample: the samples of
/// channel `c` are those at `c` in each frame, whatever the channel.
pub proof fn law_channels_are_de_interleaved(data: Seq<u32>, channels: int, c: int, k: int)
    requires
        0 <= c < channels,
        0 <= k,
        (k + 1) * channels <= data.len(),
    ensures
        k < channel_samples(data, channels, c).len(),
        channel_samples(data, channels, c)[k] == data[k * channels + c],
{
    lemma_frames_reach(data.len() as int, channels, k);
    assert((k + 1) * channels == k * channels + channels) by (nonlinear_arith);
}

/// Interleaving the samples of all channels again gives the block back.
pub proof fn law_interleaving_gives_the_block_back(data: Seq<u32>, channels: int, frames: int)
    requires
        channels > 0,
        frames >= 0,
        data.len() == frames * channels,
    ensures
        forall|c: int|
            0 <= c < channels ==> (#[trigger] channel_samples(data, channels, c)).len() == frames,
        data == Seq::new(
            data.len(),
            |j: int| channel_samples(data, channels, j % channels)[j / channels],
        ),
{
    lemma_frames_reach(data.len() as int, channels, frames);
    if frames > 0 {
        lemma_frames_reach(data.len() as int, channels, frames - 1);
        assert((frames - 1) * channels < frames * channels) by (nonlinear_arith)
            requires
                channels > 0,
        ;
    }
    let back = Seq::new(
        data.len(),
        |j: int| channel_samples(data, channels, j % channels)[j / channels],
    );
    assert forall|j: int| 0 <= j < data.len() implies #[trigger] back[j] == data[j] by {
        let (k, c) = (j / channels, j % channels);
        vstd::arithmetic::div_mod::lemma_fundamental_div_mod(j, channels);
        assert(0 <= c < channels && 0 <= k && (k + 1) * channels <= frames * channels)
            by (nonlinear_arith)
            requires
                j == channels * k + c,
                c == j % channels,
                channels > 0,
                0 <= j < frames * channels,
        ;
        law_channels_are_de_interleaved(data, channels, c, k);
        assert(k * channels + c == j) by (nonlinear_arith)
            requires
                j == channels * k + c,
        ;
    }
    assert(back =~= data);
}

/// Each channel gives one sample per frame, the last frame counted even where it is
/// cut short; that frame gives its last sample for the channels that it lacks, and
/// so does every frame for a channel that the device lacks.
pub proof fn law_lacking_channels_give_the_last_sample(
    data: Seq<u32>,
    channels: int,
    c: int,
    k: int,
)
    requires
        channels > 0,
        0 <= c,
        0 <= k,
    ensures
        k < channel_samples(data, channels, c).len() <==> k * channels < data.len(),
        k * channels + c < data.len() && c < channels ==> channel_samples(data, channels, c)[k]
            == data[k * channels + c],
        k * channels < data.len() <= k * channels + c && data.len() <= (k + 1) * channels
            ==> channel_samples(data, channels, c)[k] == data.last(),
        (k + 1) * channels <= data.len() && c >= channels ==> channel_samples(
            data,
            channels,
            c,
        )[k] == data[(k + 1) * channels - 1],
{
    lemma_frames_reach(data.len() as int, channels, k);
    assert((k + 1) * channels == k * channels + channels) by (nonlinear_arith);
}

/// A producer that heard samples was offered each of them, once and in order,
/// behind all that it had been offered before; its ring refused one only after it
/// had taken as many as it holds.
pub proof fn law_hearing_is_being_offered(
    before: Producer<u32>,
    after: Producer<u32>,
    samples: Seq<u32>,
    j: int,
)
    requires
        heard(before, after, samples),
        0 <= j < samples.len(),
    ensures
        ring::offers(after).len() == ring::offers(before).len() + samples.len(),
        ring::offers(after).take(ring::offers(before).len() as int) == ring::offers(before),
        ring::offers(after)[ring::offers(before).len() + j].0 == samples[j],
        !ring::offers(after)[ring::offers(before).len() + j].1 ==> ring::accepted_of(
            ring::offers(after).take(ring::offers(before).len() + j),
        ).len() >= ring::holds(before),
        ring::entering(after) == ring::entering(before),
{
    assert(ring::offers(after).take(ring::offers(before).len() as int) =~= ring::offers(before));
}

/// All was taken just where no offer since was refused.
pub proof fn law_all_is_taken_where_nothing_is_refused(
    before: Producer<u32>,
    after: Producer<u32>,
    j: int,
)
    requires
        ring::offers(before).len() <= j < ring::offers(after).len(),
    ensures
        all_taken(before, after) ==> ring::offers(after)[j].1,
        !all_taken(before, after) ==> exists|k: int|
            ring::offers(before).len() <= k < ring::offers(after).len() && !(
            #[trigger] ring::offers(after)[k]).1,
{
}

/// Where no channels were asked for, input `i` gets channel `i`, or the last one
/// that there is.
pub proof fn law_inputs_get_the_first_channels(available: int, inputs: nat, i: int)
    requires
        0 <= i < inputs <= usize::MAX,
        1 <= available <= usize::MAX,
    ensures
        default_map(available, inputs).len() == inputs,
        default_map(available, inputs)[i] <= i,
        default_map(available, inputs)[i] < available,
        default_map(available, inputs)[i] == i || default_map(available, inputs)[i] + 1
            == available,
{
}

/// A list of channels is read piece by piece: it is one just where each piece spells
/// a number from one on that fits, and these are the channels, in order.
pub proof fn law_channel_lists_are_read_piece_by_piece(s: Seq<char>, k: int)
    requires
        0 <= k < text::pieces(s).len(),
    ensures
        channel_list(s) matches Some(map) ==> map.len() == text::pieces(s).len()
            && text::decimal(text::pieces(s)[k]) == Some(map[k] as int) && map[k] >= 1,
        channel_list(s) is None ==> exists|j: int|
            0 <= j < text::pieces(s).len() && match text::decimal(#[trigger] text::pieces(s)[j]) {
                Some(n) => n < 1 || n > usize::MAX,
                None => true,
            },
{
    if channel_list(s) is Some {
        assert(channel(text::pieces(s)[k]) is Some);
    } else {
        let j = choose|j: int|
            0 <= j < text::pieces(s).len() && channel(#[trigger] text::pieces(s)[j]) is None;
        assert(channel(text::pieces(s)[j]) is None);
    }
}

/// A device is meant just where its name, in lower case, holds the wanted name in
/// lower case; one without a name is not.
pub proof fn law_devices_are_meant_by_part_of_their_name(name: String, wanted: Seq<char>)
    ensures
        meant(Some(name), wanted) <==> text::occurs(
            text::lowercased(wanted),
            text::lowercased(name@),
        ),
        !meant(None, wanted),
{
}

/// The channel that is refused is the first of those asked for that is not between
/// one and what the device has.
pub proof fn law_first_missing_channel(asked: Seq<usize>, available: int, k: int, j: int)
    requires
        first_missing(asked, available, k),
    ensures
        asked[k] < 1 || asked[k] > available,
        0 <= j < k ==> 1 <= asked[j] && asked[j] <= available,
{
}

/// Without channels there are no samples, and without channels to choose from every
/// input is left with the first.
pub proof fn law_no_channels_no_samples(data: Seq<u32>, c: int, inputs: nat, i: int)
    requires
        0 <= i < inputs,
    ensures
        channel_samples(data, 0, c).len() == 0,
        default_map(0, inputs)[i] == 0,
{
}

/// A device is shown by its name, and as unknown where it has none.
pub proof fn law_devices_are_shown_by_name(name: String)
    ensures
        shown_name(Some(name)) == name@,
        shown_name(None) == "<unknown>"@,
{
}

} // verus!
