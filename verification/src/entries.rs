//! Snapshots of the server-side entities, one struct per category, holding as
//! plain values exactly what the panel reads: identifiers, names, per-channel
//! volume levels, flags, status, and the back-references that tie one entity
//! to another. The server's free-form property bag is reduced to the named
//! properties the panel displays.

use vstd::prelude::*;
use vstd::arithmetic::div_mod::lemma_div_is_ordered;
use vstd::arithmetic::div_mod::lemma_div_multiples_vanish;
use vstd::arithmetic::mul::lemma_mul_inequality;
use vstd::string::StrSliceExecFns;
use vstd::string::StringExecFns;
use crate::selecting_map::EntryFilter;
use crate::selecting_map::SelectingMap;

verus! {

/// A silent channel level.
pub const VOLUME_MUTED: u32 = 0;

/// The nominal (100%) channel level.
pub const VOLUME_NORM: u32 = 0x10000;

/// The largest channel level a mutation command may carry.
pub const VOLUME_MAX: u32 = 0x7FFFFFFF;

/// The identifier the server uses for "no such entity".
pub const INVALID_INDEX: u32 = 0xFFFFFFFF;

/// The largest level in a sequence of channel levels, or silence for none.
pub open spec fn seq_max(s: Seq<u32>) -> u32
    decreases s.len(),
{
    if s.len() == 0 {
        0u32
    } else if s.last() >= seq_max(s.drop_last()) {
        s.last()
    } else {
        seq_max(s.drop_last())
    }
}

pub proof fn lemma_seq_max_bound(s: Seq<u32>)
    ensures
        forall|i: int| 0 <= i < s.len() ==> s[i] <= seq_max(s),
    decreases s.len(),
{
    if s.len() > 0 {
        lemma_seq_max_bound(s.drop_last());
        assert forall|i: int| 0 <= i < s.len() implies s[i] <= seq_max(s) by {
            if i < s.len() - 1 {
                assert(s.drop_last()[i] == s[i]);
            }
        }
    }
}

/// All channels rescaled so that the loudest one lands on `target`, keeping
/// the proportions between channels; silence everywhere becomes `target`
/// everywhere.
pub open spec fn spec_scaled(s: Seq<u32>, target: u32) -> Seq<u32> {
    if seq_max(s) == 0 {
        Seq::new(s.len(), |i: int| target)
    } else {
        s.map_values(|v: u32| ((v as int * target as int) / (seq_max(s) as int)) as u32)
    }
}

/// The loudest channel raised by `step`, saturating at [`VOLUME_MAX`], with
/// the rest scaled proportionally.
pub open spec fn spec_increased(s: Seq<u32>, step: u32) -> Seq<u32> {
    if seq_max(s) as int + step as int > VOLUME_MAX as int {
        spec_scaled(s, VOLUME_MAX)
    } else {
        spec_scaled(s, (seq_max(s) + step) as u32)
    }
}

/// The loudest channel lowered by `step`, saturating at silence, with the
/// rest scaled proportionally.
pub open spec fn spec_decreased(s: Seq<u32>, step: u32) -> Seq<u32> {
    if seq_max(s) >= step {
        spec_scaled(s, (seq_max(s) - step) as u32)
    } else {
        spec_scaled(s, VOLUME_MUTED)
    }
}

/// The integer mean of the channel levels, or silence for none.
pub open spec fn spec_avg(s: Seq<u32>) -> u32
    decreases s.len(),
{
    if s.len() == 0 {
        0u32
    } else {
        (seq_sum(s) / s.len() as int) as u32
    }
}

pub open spec fn seq_sum(s: Seq<u32>) -> int
    decreases s.len(),
{
    if s.len() == 0 {
        0
    } else {
        seq_sum(s.drop_last()) + s.last()
    }
}

pub proof fn lemma_seq_sum_bound(s: Seq<u32>)
    ensures
        0 <= seq_sum(s) <= s.len() * (u32::MAX as int),
    decreases s.len(),
{
    if s.len() > 0 {
        lemma_seq_sum_bound(s.drop_last());
        assert(seq_sum(s) <= (s.len() - 1) * (u32::MAX as int) + u32::MAX as int);
        assert((s.len() - 1) * (u32::MAX as int) + u32::MAX as int == s.len() * (u32::MAX as int))
            by (nonlinear_arith);
    }
}

/// Per-channel volume of one entity, as plain levels between
/// [`VOLUME_MUTED`] and [`VOLUME_MAX`] with [`VOLUME_NORM`] the nominal
/// loudness.
#[derive(Clone, Debug, PartialEq, Eq)]
pub struct Volumes {
    pub levels: Vec<u32>,
}

impl View for Volumes {
    type V = Seq<u32>;

    open spec fn view(&self) -> Seq<u32> {
        self.levels@
    }
}

impl Volumes {
    pub fn new(levels: Vec<u32>) -> (r: Volumes)
        ensures
            r@ == levels@,
    {
        Volumes { levels }
    }

    pub fn channels(&self) -> (n: usize)
        ensures
            n == self@.len(),
    {
        self.levels.len()
    }

    /// The loudest channel's level.
    pub fn max_level(&self) -> (m: u32)
        ensures
            m == seq_max(self@),
    {
        let mut m: u32 = 0;
        let mut i: usize = 0;
        proof {
            assert(self.levels@.take(0) =~= Seq::<u32>::empty());
        }
        while i < self.levels.len()
            invariant
                i <= self.levels@.len(),
                m == seq_max(self.levels@.take(i as int)),
            decreases self.levels@.len() - i,
        {
            proof {
                assert(self.levels@.take(i as int + 1).drop_last() =~= self.levels@.take(i as int));
                assert(self.levels@.take(i as int + 1).last() == self.levels@[i as int]);
            }
            if self.levels[i] > m {
                m = self.levels[i];
            }
            i = i + 1;
        }
        proof {
            assert(self.levels@.take(self.levels@.len() as int) =~= self.levels@);
        }
        m
    }

    /// A copy rescaled so the loudest channel lands on `target`, keeping the
    /// proportions between channels.
    pub fn scaled(&self, target: u32) -> (r: Volumes)
        ensures
            r@ == spec_scaled(self@, target),
    {
        let m = self.max_level();
        let mut out: Vec<u32> = Vec::new();
        let mut i: usize = 0;
        if m == 0 {
            while i < self.levels.len()
                invariant
                    i <= self.levels@.len(),
                    out@.len() == i,
                    forall|j: int| 0 <= j < i ==> out@[j] == target,
                decreases self.levels@.len() - i,
            {
                out.push(target);
                i = i + 1;
            }
            proof {
                assert(out@ =~= spec_scaled(self@, target));
            }
        } else {
            proof {
                lemma_seq_max_bound(self@);
            }
            while i < self.levels.len()
                invariant
                    i <= self.levels@.len(),
                    out@.len() == i,
                    m == seq_max(self.levels@),
                    m > 0,
                    forall|j: int| 0 <= j < self.levels@.len() ==> self.levels@[j] <= m,
                    forall|j: int|
                        0 <= j < i ==> out@[j] == ((self.levels@[j] as int * target as int) / (
                        m as int)) as u32,
                decreases self.levels@.len() - i,
            {
                let v = self.levels[i];
                proof {
                    assert((v as int) * (target as int) <= (u32::MAX as int) * (u32::MAX as int))
                        by (nonlinear_arith)
                        requires
                            0 <= v as int <= u32::MAX as int,
                            0 <= target as int <= u32::MAX as int,
                    ;
                }
                let q: u64 = (v as u64) * (target as u64) / (m as u64);
                proof {
                    lemma_mul_inequality(v as int, m as int, target as int);
                    lemma_div_is_ordered(
                        v as int * target as int,
                        m as int * target as int,
                        m as int,
                    );
                    lemma_div_multiples_vanish(target as int, m as int);
                    assert(q <= target);
                }
                out.push(q as u32);
                i = i + 1;
            }
            proof {
                assert(out@ =~= spec_scaled(self@, target));
            }
        }
        Volumes { levels: out }
    }

    /// A copy with the loudest channel raised by `step`, saturating at
    /// [`VOLUME_MAX`].
    pub fn increased(&self, step: u32) -> (r: Volumes)
        ensures
            r@ == spec_increased(self@, step),
    {
        let m = self.max_level();
        let target = if (m as u64) + (step as u64) > (VOLUME_MAX as u64) {
            VOLUME_MAX
        } else {
            m + step
        };
        self.scaled(target)
    }

    /// A copy with the loudest channel lowered by `step`, saturating at
    /// silence.
    pub fn decreased(&self, step: u32) -> (r: Volumes)
        ensures
            r@ == spec_decreased(self@, step),
    {
        let m = self.max_level();
        let target = if m >= step {
            m - step
        } else {
            VOLUME_MUTED
        };
        self.scaled(target)
    }

    /// A copy with every channel set to `level`: silence, nominal, or a
    /// digit-key shortcut level.
    pub fn set_all(&self, level: u32) -> (r: Volumes)
        ensures
            r@ == Seq::new(self@.len(), |i: int| level),
    {
        let mut out: Vec<u32> = Vec::new();
        let mut i: usize = 0;
        while i < self.levels.len()
            invariant
                i <= self.levels@.len(),
                out@.len() == i,
                forall|j: int| 0 <= j < i ==> out@[j] == level,
            decreases self.levels@.len() - i,
        {
            out.push(level);
            i = i + 1;
        }
        proof {
            assert(out@ =~= Seq::new(self@.len(), |i: int| level));
        }
        Volumes { levels: out }
    }

    /// The integer mean of the channel levels, shown on the gauges.
    pub fn avg(&self) -> (a: u32)
        requires
            self@.len() <= u32::MAX as usize,
        ensures
            a == spec_avg(self@),
    {
        if self.levels.len() == 0 {
            return 0;
        }
        let mut sum: u64 = 0;
        let mut i: usize = 0;
        proof {
            assert(self.levels@.take(0) =~= Seq::<u32>::empty());
        }
        while i < self.levels.len()
            invariant
                i <= self.levels@.len(),
                self.levels@.len() <= u32::MAX as usize,
                sum == seq_sum(self.levels@.take(i as int)),
                sum <= (i as int) * (u32::MAX as int),
            decreases self.levels@.len() - i,
        {
            proof {
                assert(self.levels@.take(i as int + 1).drop_last() =~= self.levels@.take(i as int));
                assert(self.levels@.take(i as int + 1).last() == self.levels@[i as int]);
                assert((i as int) * (u32::MAX as int) + u32::MAX as int == (i as int + 1) * (
                u32::MAX as int)) by (nonlinear_arith);
                assert((i as int + 1) * (u32::MAX as int) <= (u32::MAX as int) * (u32::MAX as int))
                    by (nonlinear_arith)
                    requires
                        i as int + 1 <= u32::MAX as int,
                ;
            }
            sum = sum + (self.levels[i] as u64);
            i = i + 1;
        }
        proof {
            assert(self.levels@.take(self.levels@.len() as int) =~= self.levels@);
            lemma_div_is_ordered(
                seq_sum(self.levels@),
                self.levels@.len() as int * (u32::MAX as int),
                self.levels@.len() as int,
            );
            lemma_div_multiples_vanish(u32::MAX as int, self.levels@.len() as int);
            lemma_seq_sum_bound(self.levels@);
        }
        (sum / (self.levels.len() as u64)) as u32
    }
}

/// Whether a device port is physically available.
#[derive(Clone, Copy, PartialEq, Eq, Structural)]
pub enum PortAvailable {
    Unknown,
    Yes,
    No,
}

/// Running state of a device, as last reported by the server.
#[derive(Clone, Copy, PartialEq, Eq, Structural)]
pub enum DeviceState {
    Invalid,
    Running,
    Idle,
    Suspended,
}

/// One port of a device or card.
pub struct PortInfo {
    pub name: String,
    pub description: String,
    pub priority: u32,
    pub available: PortAvailable,
}

/// One profile a card can switch to.
pub struct ProfileInfo {
    pub name: String,
    pub description: String,
    pub n_sinks: u32,
    pub n_sources: u32,
    pub priority: u32,
    pub available: bool,
}

impl ProfileInfo {
    pub fn display_name(&self) -> (r: &str)
        ensures
            r@ == self.description@,
    {
        self.description.as_str()
    }
}

/// One playback stream. `sink_index` names the output device it is routed
/// to; `app_name` and `binary_name` are the two properties read from the
/// server's property bag.
pub struct SinkInputEntry {
    pub index: u32,
    pub name: String,
    pub sink_index: u32,
    pub volume: Volumes,
    pub mute: bool,
    pub corked: bool,
    pub has_volume: bool,
    pub volume_writable: bool,
    pub app_name: Option<String>,
    pub binary_name: Option<String>,
}

impl SinkInputEntry {
    /// The stream's name, decorated with the owning application where known.
    pub open spec fn spec_display_name(self) -> Seq<char> {
        if self.binary_name matches Option::Some(b) && b@ == "firefox"@ {
            self.name@ + " ["@ + "firefox"@ + "]"@
        } else {
            match self.app_name {
                Option::Some(a) => self.name@ + " ["@ + a@ + "]"@,
                Option::None => self.name@,
            }
        }
    }

    pub fn display_name(&self) -> (r: String)
        ensures
            r@ == self.spec_display_name(),
    {
        if let Some(b) = &self.binary_name {
            let firefox = String::from_str("firefox");
            if *b == firefox {
                let mut r = self.name.clone();
                r.append(" [");
                r.append("firefox");
                r.append("]");
                return r;
            }
        }
        if let Some(a) = &self.app_name {
            let mut r = self.name.clone();
            r.append(" [");
            r.append(a.as_str());
            r.append("]");
            r
        } else {
            self.name.clone()
        }
    }
}

/// One capture stream. `source_index` names the input device it records
/// from.
pub struct SourceOutputEntry {
    pub index: u32,
    pub name: String,
    pub source_index: u32,
    pub volume: Volumes,
    pub mute: bool,
    pub corked: bool,
    pub has_volume: bool,
    pub volume_writable: bool,
    pub app_name: Option<String>,
}

impl SourceOutputEntry {
    pub open spec fn spec_display_name(self) -> Seq<char> {
        match self.app_name {
            Option::Some(a) => self.name@ + " ["@ + a@ + "]"@,
            Option::None => self.name@,
        }
    }

    pub fn display_name(&self) -> (r: String)
        ensures
            r@ == self.spec_display_name(),
    {
        if let Some(a) = &self.app_name {
            let mut r = self.name.clone();
            r.append(" [");
            r.append(a.as_str());
            r.append("]");
            r
        } else {
            self.name.clone()
        }
    }
}

/// One output device.
pub struct SinkEntry {
    pub index: u32,
    pub name: String,
    pub description: String,
    pub volume: Volumes,
    pub mute: bool,
    pub state: DeviceState,
    pub owner_module: Option<u32>,
    pub ports: Vec<PortInfo>,
}

impl SinkEntry {
    pub fn display_name(&self) -> (r: String)
        ensures
            r@ == self.description@,
    {
        self.description.clone()
    }
}

/// One input device. `monitor_of_sink` is present when the source merely
/// taps an output device's signal instead of real hardware.
pub struct SourceEntry {
    pub index: u32,
    pub name: String,
    pub description: String,
    pub volume: Volumes,
    pub mute: bool,
    pub monitor_of_sink: Option<u32>,
    pub state: DeviceState,
    pub owner_module: Option<u32>,
    pub ports: Vec<PortInfo>,
}

impl SourceEntry {
    pub fn display_name(&self) -> (r: String)
        ensures
            r@ == self.description@,
    {
        self.description.clone()
    }

    pub fn is_monitor(&self) -> (r: bool)
        ensures
            r == (self.monitor_of_sink is Some),
    {
        self.monitor_of_sink.is_some()
    }
}

/// One hardware card with its switchable profiles. `active_profile_index`
/// is the profile the server confirmed; `selected_profile_index` is the
/// operator's highlighted, not yet confirmed choice.
pub struct CardEntry {
    pub index: u32,
    pub name: String,
    pub device_description: Option<String>,
    pub ports: Vec<PortInfo>,
    pub profiles: Vec<ProfileInfo>,
    pub active_profile_index: Option<usize>,
    pub selected_profile_index: Option<usize>,
}

impl CardEntry {
    /// Profile indices stay inside the profile list, and only a card without
    /// profiles lacks a highlighted one.
    pub open spec fn wf(self) -> bool {
        &&& (self.active_profile_index matches Option::Some(i) ==> i < self.profiles@.len())
        &&& (self.selected_profile_index matches Option::Some(i) ==> i < self.profiles@.len())
        &&& (self.selected_profile_index is None ==> self.profiles@.len() == 0)
    }

    /// This card with a different highlighted profile.
    pub open spec fn with_selected_profile(self, sel: Option<usize>) -> CardEntry {
        CardEntry {
            index: self.index,
            name: self.name,
            device_description: self.device_description,
            ports: self.ports,
            profiles: self.profiles,
            active_profile_index: self.active_profile_index,
            selected_profile_index: sel,
        }
    }

    pub fn display_name(&self) -> (r: String)
        ensures
            self.device_description matches Option::Some(d) ==> r@ == d@,
            self.device_description is None ==> r@ == self.name@,
    {
        match &self.device_description {
            Some(d) => d.clone(),
            None => self.name.clone(),
        }
    }
}

/// Accepts input devices that are not monitors of an output device.
pub struct NotMonitor;

impl EntryFilter<SourceEntry> for NotMonitor {
    open spec fn spec_accepts(&self, v: SourceEntry) -> bool {
        !(v.monitor_of_sink is Some)
    }

    fn accepts(&self, v: &SourceEntry) -> (r: bool) {
        v.monitor_of_sink.is_none()
    }
}

/// Every source registry is keyed by the sources' own identifiers.
pub open spec fn source_keyed(m: SelectingMap<SourceEntry>) -> bool {
    forall|k: u32| #[trigger] m@.dom().contains(k) ==> m@[k].index == k
}

/// Accepts capture streams that record from a visible device: one that
/// exists, is not the server's "no device" marker, and is not a monitor.
/// Holds the monitor sources' identifiers, collected up front, so that the
/// test itself needs no further lookups.
pub struct VisibleSourceOutputs {
    pub monitor_sources: Vec<u32>,
}

/// What [`VisibleSourceOutputs`] accepts, phrased against the source
/// registry it was collected from.
pub open spec fn visible_source_output_pred(
    sources: Map<u32, SourceEntry>,
) -> spec_fn(SourceOutputEntry) -> bool {
    |v: SourceOutputEntry|
        !(v.source_index == INVALID_INDEX || (sources.dom().contains(v.source_index)
            && sources[v.source_index].monitor_of_sink is Some))
}

impl VisibleSourceOutputs {
    /// Collects the monitor sources of `sources`.
    pub fn from_sources(sources: &SelectingMap<SourceEntry>) -> (r: VisibleSourceOutputs)
        requires
            sources.inv(),
            source_keyed(*sources),
        ensures
            forall|k: u32|
                #[trigger] r.monitor_sources@.contains(k) <==> (sources@.dom().contains(k)
                    && sources@[k].monitor_of_sink is Some),
    {
        let vals = sources.values();
        let mut out: Vec<u32> = Vec::new();
        let mut j: usize = 0;
        proof {
            crate::selecting_map::lemma_sorted_keys_distinct(sources.entries());
            crate::selecting_map::lemma_seq_to_map_dom(sources.entries());
            assert forall|i: int| 0 <= i < sources.entries().len() implies sources.entries()[i].1
                == sources@[sources.entries()[i].0] && sources.entries()[i].1.index
                == sources.entries()[i].0 by {
                crate::selecting_map::lemma_seq_to_map_index(sources.entries(), i);
                assert(crate::selecting_map::entry_keys(sources.entries())[i]
                    == sources.entries()[i].0);
            }
        }
        while j < vals.len()
            invariant
                sources.inv(),
                source_keyed(*sources),
                vals@.len() == sources.entries().len(),
                forall|i: int| 0 <= i < vals@.len() ==> *vals@[i] == sources.entries()[i].1,
                forall|i: int|
                    0 <= i < sources.entries().len() ==> #[trigger] sources.entries()[i].1
                        == sources@[sources.entries()[i].0] && sources.entries()[i].1.index
                        == sources.entries()[i].0,
                forall|k: u32| #[trigger] sources@.dom().contains(k) <==> crate::selecting_map::entry_keys(sources.entries()).contains(k),
                j <= vals@.len(),
                forall|k: u32|
                    #[trigger] out@.contains(k) <==> exists|i: int|
                        0 <= i < j && sources.entries()[i].0 == k && sources.entries()[i].1.monitor_of_sink is Some,
            decreases vals@.len() - j,
        {
            let v = vals[j];
            if v.monitor_of_sink.is_some() {
                let ghost prev = out@;
                out.push(v.index);
                proof {
                    assert forall|k: u32| #[trigger] out@.contains(k) <==> (prev.contains(k) || k
                        == sources.entries()[j as int].0) by {
                        if out@.contains(k) {
                            let w = choose|w: int| 0 <= w < out@.len() && out@[w] == k;
                            if w < prev.len() {
                                assert(prev[w] == k);
                            }
                        }
                        if prev.contains(k) {
                            let w = choose|w: int| 0 <= w < prev.len() && prev[w] == k;
                            assert(out@[w] == k);
                        }
                        if k == sources.entries()[j as int].0 {
                            assert(out@[out@.len() - 1] == k);
                        }
                    }
                }
            }
            j = j + 1;
            proof {
                assert forall|k: u32| #[trigger] out@.contains(k) implies exists|i: int|
                    0 <= i < j && sources.entries()[i].0 == k
                        && sources.entries()[i].1.monitor_of_sink is Some by {}
                assert forall|k: u32|
                    (exists|i: int|
                        0 <= i < j && sources.entries()[i].0 == k && sources.entries()[i].1.monitor_of_sink is Some) implies #[trigger] out@.contains(k) by {
                    let i = choose|i: int|
                        0 <= i < j && sources.entries()[i].0 == k && sources.entries()[i].1.monitor_of_sink is Some;
                }
            }
        }
        proof {
            assert forall|k: u32|
                #[trigger] out@.contains(k) <==> (sources@.dom().contains(k)
                    && sources@[k].monitor_of_sink is Some) by {
                if out@.contains(k) {
                    let i = choose|i: int|
                        0 <= i < j && sources.entries()[i].0 == k
                            && sources.entries()[i].1.monitor_of_sink is Some;
                    assert(crate::selecting_map::entry_keys(sources.entries())[i] == k);
                    assert(crate::selecting_map::entry_keys(sources.entries()).contains(k));
                    assert(sources.entries()[i].1 == sources@[sources.entries()[i].0]);
                }
                if sources@.dom().contains(k) && sources@[k].monitor_of_sink is Some {
                    assert(crate::selecting_map::entry_keys(sources.entries()).contains(k));
                    let i = choose|i: int|
                        0 <= i < sources.entries().len() && crate::selecting_map::entry_keys(
                            sources.entries(),
                        )[i] == k;
                    assert(sources.entries()[i].0 == k);
                    assert(sources.entries()[i].1 == sources@[sources.entries()[i].0]);
                }
            }
        }
        VisibleSourceOutputs { monitor_sources: out }
    }
}

/// A freshly collected [`VisibleSourceOutputs`] tests exactly the predicate
/// [`visible_source_output_pred`] of the registry it was collected from.
pub proof fn lemma_visible_filter_matches(
    vso: VisibleSourceOutputs,
    sources: Map<u32, SourceEntry>,
)
    requires
        forall|k: u32|
            #[trigger] vso.monitor_sources@.contains(k) <==> (sources.dom().contains(k)
                && sources[k].monitor_of_sink is Some),
    ensures
        crate::selecting_map::filter_pred(vso) == visible_source_output_pred(sources),
{
    assert forall|v: SourceOutputEntry|
        #[trigger] crate::selecting_map::filter_pred(vso)(v) == visible_source_output_pred(
            sources,
        )(v) by {
        assert(vso.monitor_sources@.contains(v.source_index) <==> (sources.dom().contains(
            v.source_index,
        ) && sources[v.source_index].monitor_of_sink is Some));
    }
    assert(crate::selecting_map::filter_pred(vso) =~= visible_source_output_pred(sources));
}

impl EntryFilter<SourceOutputEntry> for VisibleSourceOutputs {
    open spec fn spec_accepts(&self, v: SourceOutputEntry) -> bool {
        !(v.source_index == INVALID_INDEX || self.monitor_sources@.contains(v.source_index))
    }

    fn accepts(&self, v: &SourceOutputEntry) -> (r: bool) {
        if v.source_index == INVALID_INDEX {
            return false;
        }
        let mut i: usize = 0;
        while i < self.monitor_sources.len()
            invariant
                i <= self.monitor_sources@.len(),
                forall|j: int| 0 <= j < i ==> self.monitor_sources@[j] != v.source_index,
            decreases self.monitor_sources@.len() - i,
        {
            if self.monitor_sources[i] == v.source_index {
                return false;
            }
            i = i + 1;
        }
        proof {
            if self.monitor_sources@.contains(v.source_index) {
                let j = choose|j: int|
                    0 <= j < self.monitor_sources@.len() && self.monitor_sources@[j]
                        == v.source_index;
            }
        }
        true
    }
}

} // verus!
