//! Network rate calculation.
//!
//! The operating system reports cumulative per-interface byte counters.  Each
//! tick this module derives instantaneous rates from the difference against
//! the previous tick's counters.  An interface absent from the previous tick
//! (new or renamed) contributes no delta; a counter that decreased (interface
//! reset) is clamped to a delta of zero, never negative.  Every rate, per
//! interface and aggregate, is the delta scaled to bytes per second by the
//! measured time since the previous tick; a zero elapsed time (the very
//! first tick, which has no previous counters anyway) reports zero.  All
//! sums saturate instead of wrapping.

use vstd::prelude::*;

verus! {

/// One interface's cumulative counters for the current tick.
pub struct IfaceSample {
    pub name: String,
    pub received: u64,
    pub transmitted: u64,
}

/// Ghost image of an `IfaceSample`.
pub struct IfaceView {
    pub name: Seq<char>,
    pub received: u64,
    pub transmitted: u64,
}

impl View for IfaceSample {
    type V = IfaceView;

    open spec fn view(&self) -> IfaceView {
        IfaceView { name: self.name@, received: self.received, transmitted: self.transmitted }
    }
}

/// One interface's counters and rates in bytes per second, for display.
pub struct NetworkInterface {
    pub name: String,
    pub received: u64,
    pub transmitted: u64,
    pub speed_down: u64,
    pub speed_up: u64,
}

/// Ghost image of a `NetworkInterface`.
pub struct NetIfView {
    pub name: Seq<char>,
    pub received: u64,
    pub transmitted: u64,
    pub speed_down: u64,
    pub speed_up: u64,
}

impl View for NetworkInterface {
    type V = NetIfView;

    open spec fn view(&self) -> NetIfView {
        NetIfView {
            name: self.name@,
            received: self.received,
            transmitted: self.transmitted,
            speed_down: self.speed_down,
            speed_up: self.speed_up,
        }
    }
}

/// The views of a sample list.
pub open spec fn sample_views(s: Seq<IfaceSample>) -> Seq<IfaceView> {
    s.map_values(|x: IfaceSample| x@)
}

/// The counter delta for one interface: zero when the counter decreased.
pub open spec fn counter_delta_spec(curr: u64, prev: u64) -> u64 {
    if curr >= prev {
        (curr - prev) as u64
    } else {
        0
    }
}

/// A rate is never negative: a counter decrease (reset) yields zero, and a
/// counter increase yields exactly the difference.
pub fn counter_delta(curr: u64, prev: u64) -> (r: u64)
    ensures
        r == counter_delta_spec(curr, prev),
        prev <= curr ==> r == curr - prev,
        curr < prev ==> r == 0,
{
    curr.saturating_sub(prev)
}

/// The previous tick's counters for `name`, if that interface was present.
pub open spec fn lookup_prev(prev: Seq<IfaceView>, name: Seq<char>) -> Option<(u64, u64)>
    decreases prev.len(),
{
    if prev.len() == 0 {
        None
    } else if prev[0].name == name {
        Some((prev[0].received, prev[0].transmitted))
    } else {
        lookup_prev(prev.drop_first(), name)
    }
}

/// The received-counter baseline for a sample: its previous value, or the
/// current one when the interface is new (yielding a zero delta).
pub open spec fn base_rx(prev: Seq<IfaceView>, s: IfaceView) -> u64 {
    match lookup_prev(prev, s.name) {
        Some(p) => p.0,
        None => s.received,
    }
}

/// The transmitted-counter baseline for a sample.
pub open spec fn base_tx(prev: Seq<IfaceView>, s: IfaceView) -> u64 {
    match lookup_prev(prev, s.name) {
        Some(p) => p.1,
        None => s.transmitted,
    }
}

/// Saturating sum of the received counters of the first `n` samples.
pub open spec fn sum_rx(samples: Seq<IfaceView>, n: int) -> u64
    decreases n,
{
    if n <= 0 || n > samples.len() {
        0
    } else {
        sum_rx(samples, n - 1).saturating_add(samples[n - 1].received)
    }
}

/// Saturating sum of the transmitted counters of the first `n` samples.
pub open spec fn sum_tx(samples: Seq<IfaceView>, n: int) -> u64
    decreases n,
{
    if n <= 0 || n > samples.len() {
        0
    } else {
        sum_tx(samples, n - 1).saturating_add(samples[n - 1].transmitted)
    }
}

/// Saturating sum of the received-counter deltas of the first `n` samples.
pub open spec fn sum_delta_rx(samples: Seq<IfaceView>, prev: Seq<IfaceView>, n: int) -> u64
    decreases n,
{
    if n <= 0 || n > samples.len() {
        0
    } else {
        sum_delta_rx(samples, prev, n - 1).saturating_add(
            counter_delta_spec(samples[n - 1].received, base_rx(prev, samples[n - 1])),
        )
    }
}

/// Saturating sum of the transmitted-counter deltas of the first `n` samples.
pub open spec fn sum_delta_tx(samples: Seq<IfaceView>, prev: Seq<IfaceView>, n: int) -> u64
    decreases n,
{
    if n <= 0 || n > samples.len() {
        0
    } else {
        sum_delta_tx(samples, prev, n - 1).saturating_add(
            counter_delta_spec(samples[n - 1].transmitted, base_tx(prev, samples[n - 1])),
        )
    }
}

/// Scales a per-tick delta to bytes per second over the measured elapsed
/// time, saturating on overflow; a zero elapsed time reports zero.
pub open spec fn per_second(delta: u64, elapsed_ms: u64) -> u64 {
    if elapsed_ms == 0 {
        0
    } else if (delta as int) * 1000 / (elapsed_ms as int) > u64::MAX {
        u64::MAX
    } else {
        ((delta as int) * 1000 / (elapsed_ms as int)) as u64
    }
}

/// The display list: samples with any traffic, each with its counters and
/// its rates in bytes per second, in input order.
pub open spec fn active_ifaces(
    samples: Seq<IfaceView>,
    prev: Seq<IfaceView>,
    elapsed_ms: u64,
    n: int,
) -> Seq<NetIfView>
    decreases n,
{
    if n <= 0 || n > samples.len() {
        Seq::empty()
    } else {
        let s = samples[n - 1];
        let rest = active_ifaces(samples, prev, elapsed_ms, n - 1);
        if s.received > 0 || s.transmitted > 0 {
            rest.push(
                NetIfView {
                    name: s.name,
                    received: s.received,
                    transmitted: s.transmitted,
                    speed_down: per_second(
                        counter_delta_spec(s.received, base_rx(prev, s)),
                        elapsed_ms,
                    ),
                    speed_up: per_second(
                        counter_delta_spec(s.transmitted, base_tx(prev, s)),
                        elapsed_ms,
                    ),
                },
            )
        } else {
            rest
        }
    }
}

/// Cross-tick network state: previous counters and the latest derived rates.
pub struct NetworkData {
    prev: Vec<IfaceSample>,
    total_received: u64,
    total_transmitted: u64,
    speed_down: u64,
    speed_up: u64,
    interfaces: Vec<NetworkInterface>,
}

/// Ghost image of `NetworkData`.
pub struct NetworkView {
    pub prev: Seq<IfaceView>,
    pub total_received: u64,
    pub total_transmitted: u64,
    pub speed_down: u64,
    pub speed_up: u64,
    pub interfaces: Seq<NetIfView>,
}

impl View for NetworkData {
    type V = NetworkView;

    closed spec fn view(&self) -> NetworkView {
        NetworkView {
            prev: sample_views(self.prev@),
            total_received: self.total_received,
            total_transmitted: self.total_transmitted,
            speed_down: self.speed_down,
            speed_up: self.speed_up,
            interfaces: self.interfaces@.map_values(|x: NetworkInterface| x@),
        }
    }
}

impl NetworkData {
    /// Fresh state: no previous counters, all rates zero.
    pub fn new() -> (r: NetworkData)
        ensures
            r@.prev == Seq::<IfaceView>::empty(),
            r@.total_received == 0,
            r@.total_transmitted == 0,
            r@.speed_down == 0,
            r@.speed_up == 0,
            r@.interfaces == Seq::<NetIfView>::empty(),
    {
        let r = NetworkData {
            prev: Vec::new(),
            total_received: 0,
            total_transmitted: 0,
            speed_down: 0,
            speed_up: 0,
            interfaces: Vec::new(),
        };
        proof {
            assert(r@.prev =~= Seq::<IfaceView>::empty());
            assert(r@.interfaces =~= Seq::<NetIfView>::empty());
        }
        r
    }

    /// Total received bytes over all interfaces this tick.
    pub fn total_received(&self) -> (r: u64)
        ensures
            r == self@.total_received,
    {
        self.total_received
    }

    /// Total transmitted bytes over all interfaces this tick.
    pub fn total_transmitted(&self) -> (r: u64)
        ensures
            r == self@.total_transmitted,
    {
        self.total_transmitted
    }

    /// Aggregate download rate, bytes per second.
    pub fn speed_down(&self) -> (r: u64)
        ensures
            r == self@.speed_down,
    {
        self.speed_down
    }

    /// Aggregate upload rate, bytes per second.
    pub fn speed_up(&self) -> (r: u64)
        ensures
            r == self@.speed_up,
    {
        self.speed_up
    }

    /// The interfaces with any traffic, in input order.
    pub fn interfaces(&self) -> (r: &Vec<NetworkInterface>)
        ensures
            r@.map_values(|x: NetworkInterface| x@) == self@.interfaces,
    {
        &self.interfaces
    }

    /// Looks up the previous counters for `name`.
    fn find_prev(&self, name: &String) -> (r: Option<(u64, u64)>)
        ensures
            r == lookup_prev(self@.prev, name@),
    {
        proof {
            assert(self@.prev.skip(0) =~= self@.prev);
        }
        let mut i: usize = 0;
        while i < self.prev.len()
            invariant
                i <= self.prev@.len(),
                lookup_prev(self@.prev, name@) == lookup_prev(self@.prev.skip(i as int), name@),
            decreases self.prev@.len() - i,
        {
            proof {
                assert(self@.prev.skip(i as int)[0] == self.prev@[i as int]@);
            }
            if self.prev[i].name == *name {
                return Some((self.prev[i].received, self.prev[i].transmitted));
            }
            proof {
                assert(self@.prev.skip(i as int).drop_first() =~= self@.prev.skip(i + 1));
            }
            i = i + 1;
        }
        proof {
            assert(self@.prev.skip(self.prev@.len() as int).len() == 0);
        }
        None
    }

    /// One tick: derives per-interface and aggregate rates, in bytes per
    /// second over the measured `elapsed_ms` since the previous tick, from
    /// the given cumulative counters, then replaces the previous-tick
    /// counters with them.  Returns `(up, down)` in bytes per second.
    pub fn update(&mut self, samples: Vec<IfaceSample>, elapsed_ms: u64) -> (r: (u64, u64))
        ensures
            final(self)@.prev == sample_views(samples@),
            final(self)@.total_received == sum_rx(sample_views(samples@), samples@.len() as int),
            final(self)@.total_transmitted == sum_tx(
                sample_views(samples@),
                samples@.len() as int,
            ),
            final(self)@.speed_down == per_second(
                sum_delta_rx(sample_views(samples@), old(self)@.prev, samples@.len() as int),
                elapsed_ms,
            ),
            final(self)@.speed_up == per_second(
                sum_delta_tx(sample_views(samples@), old(self)@.prev, samples@.len() as int),
                elapsed_ms,
            ),
            final(self)@.interfaces == active_ifaces(
                sample_views(samples@),
                old(self)@.prev,
                elapsed_ms,
                samples@.len() as int,
            ),
            r == (final(self)@.speed_up, final(self)@.speed_down),
    {
        let ghost prev0 = self@.prev;
        let ghost sv = sample_views(samples@);
        let mut total_down: u64 = 0;
        let mut total_up: u64 = 0;
        let mut new_total_received: u64 = 0;
        let mut new_total_transmitted: u64 = 0;
        let mut interfaces: Vec<NetworkInterface> = Vec::new();

        proof {
            assert(interfaces@.map_values(|x: NetworkInterface| x@) =~= active_ifaces(
                sv,
                prev0,
                elapsed_ms,
                0,
            ));
        }
        let mut i: usize = 0;
        while i < samples.len()
            invariant
                i <= samples@.len(),
                sv == sample_views(samples@),
                prev0 == self@.prev,
                new_total_received == sum_rx(sv, i as int),
                new_total_transmitted == sum_tx(sv, i as int),
                total_down == sum_delta_rx(sv, prev0, i as int),
                total_up == sum_delta_tx(sv, prev0, i as int),
                interfaces@.map_values(|x: NetworkInterface| x@) == active_ifaces(
                    sv,
                    prev0,
                    elapsed_ms,
                    i as int,
                ),
            decreases samples@.len() - i,
        {
            let received = samples[i].received;
            let transmitted = samples[i].transmitted;
            proof {
                assert(sv[i as int] == samples@[i as int]@);
            }

            new_total_received = new_total_received.saturating_add(received);
            new_total_transmitted = new_total_transmitted.saturating_add(transmitted);

            let (prev_rx, prev_tx) = match self.find_prev(&samples[i].name) {
                Some(p) => p,
                None => (received, transmitted),
            };

            let delta_down = counter_delta(received, prev_rx);
            let delta_up = counter_delta(transmitted, prev_tx);

            total_down = total_down.saturating_add(delta_down);
            total_up = total_up.saturating_add(delta_up);

            if received > 0 || transmitted > 0 {
                let entry = NetworkInterface {
                    name: samples[i].name.clone(),
                    received,
                    transmitted,
                    speed_down: scale_rate(delta_down, elapsed_ms),
                    speed_up: scale_rate(delta_up, elapsed_ms),
                };
                proof {
                    assert((interfaces@.push(entry)).map_values(|x: NetworkInterface| x@)
                        =~= interfaces@.map_values(|x: NetworkInterface| x@).push(entry@));
                }
                interfaces.push(entry);
            }
            i = i + 1;
        }

        self.prev = samples;
        self.total_received = new_total_received;
        self.total_transmitted = new_total_transmitted;
        self.speed_down = scale_rate(total_down, elapsed_ms);
        self.speed_up = scale_rate(total_up, elapsed_ms);
        self.interfaces = interfaces;

        (self.speed_up, self.speed_down)
    }
}

/// Scales a delta to bytes per second; equal to `per_second`.
fn scale_rate(delta: u64, elapsed_ms: u64) -> (r: u64)
    ensures
        r == per_second(delta, elapsed_ms),
{
    if elapsed_ms == 0 {
        return 0;
    }
    let v: u128 = (delta as u128) * 1000 / (elapsed_ms as u128);
    if v > u64::MAX as u128 {
        u64::MAX
    } else {
        v as u64
    }
}

} // verus!
