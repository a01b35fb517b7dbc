//! The tool's configuration: the chosen input device, the virtual
//! microphones keyed by name, and UI/logging preferences. Reading and
//! writing the on-disk form is the shell's business; here live the values
//! and the name-keyed editing rules.

use vstd::prelude::*;
use vstd::string::StringExecFns;

verus! {

/// The configured input device.
#[derive(Debug, Clone)]
pub struct DeviceConfig {
    pub name: Option<String>,
    pub sample_rate: u32,
}

/// One virtual microphone: a unique name and the captured channel it taps.
#[derive(Debug, Clone)]
pub struct VirtualMicConfig {
    pub name: String,
    pub channel: u32,
}

#[derive(Debug, Clone, PartialEq, Eq, Structural)]
pub enum MeterStyle {
    Gradient,
    Mono,
    Minimal,
}

#[derive(Debug, Clone)]
pub struct UiConfig {
    pub color: bool,
    pub meter_style: MeterStyle,
}

#[derive(Debug, Clone)]
pub struct LoggingConfig {
    pub level: String,
}

/// Main configuration.
#[derive(Debug, Clone)]
pub struct Config {
    pub device: DeviceConfig,
    pub virtual_mics: Vec<VirtualMicConfig>,
    pub ui: UiConfig,
    pub logging: LoggingConfig,
}

pub fn default_sample_rate() -> (r: u32)
    ensures
        r == 48000,
{
    48000
}

pub fn default_true() -> (r: bool)
    ensures
        r,
{
    true
}

pub fn default_meter_style() -> (r: MeterStyle)
    ensures
        r is Gradient,
{
    MeterStyle::Gradient
}

pub fn default_log_level() -> (r: String)
    ensures
        r@ == "info"@,
{
    String::from_str("info")
}

impl Default for DeviceConfig {
    fn default() -> (r: Self)
        ensures
            r.name is None,
            r.sample_rate == 48000,
    {
        DeviceConfig { name: None, sample_rate: default_sample_rate() }
    }
}

impl Default for UiConfig {
    fn default() -> (r: Self)
        ensures
            r.color,
            r.meter_style is Gradient,
    {
        UiConfig { color: default_true(), meter_style: default_meter_style() }
    }
}

impl Default for LoggingConfig {
    fn default() -> (r: Self)
        ensures
            r.level@ == "info"@,
    {
        LoggingConfig { level: default_log_level() }
    }
}

impl Default for Config {
    fn default() -> (r: Self)
        ensures
            r.device.name is None,
            r.device.sample_rate == 48000,
            r.virtual_mics@ == Seq::<VirtualMicConfig>::empty(),
            r.ui.color,
            r.ui.meter_style is Gradient,
            r.logging.level@ == "info"@,
    {
        let virtual_mics: Vec<VirtualMicConfig> = Vec::new();
        assert(virtual_mics@ =~= Seq::<VirtualMicConfig>::empty());
        Config {
            device: DeviceConfig::default(),
            virtual_mics,
            ui: UiConfig::default(),
            logging: LoggingConfig::default(),
        }
    }
}

/// The configuration lists a virtual microphone with this name.
pub open spec fn has_mic(mics: Seq<VirtualMicConfig>, name: Seq<char>) -> bool {
    exists|i: int| 0 <= i < mics.len() && #[trigger] mics[i].name@ == name
}

/// The microphone list without any record of the given name, order kept.
pub open spec fn mics_without(mics: Seq<VirtualMicConfig>, name: Seq<char>) -> Seq<
    VirtualMicConfig,
> {
    mics.filter(|m: VirtualMicConfig| m.name@ != name)
}

impl Config {
    /// Add a virtual microphone, replacing any existing record of the same
    /// name; the new record goes to the end.
    pub fn add_virtual_mic(&mut self, name: String, channel: u32)
        ensures
            final(self).virtual_mics@ == mics_without(old(self).virtual_mics@, name@).push(
                VirtualMicConfig { name, channel },
            ),
            final(self).device == old(self).device,
            final(self).ui == old(self).ui,
            final(self).logging == old(self).logging,
    {
        self.retain_without(&name);
        self.virtual_mics.push(VirtualMicConfig { name, channel });
    }

    /// Remove the virtual microphone of this name; report whether one was
    /// there.
    pub fn remove_virtual_mic(&mut self, name: &str) -> (removed: bool)
        ensures
            final(self).virtual_mics@ == mics_without(old(self).virtual_mics@, name@),
            removed == has_mic(old(self).virtual_mics@, name@),
            final(self).device == old(self).device,
            final(self).ui == old(self).ui,
            final(self).logging == old(self).logging,
    {
        let ghost mics0: Seq<VirtualMicConfig> = self.virtual_mics@;
        let len_before = self.virtual_mics.len();
        let nm = String::from_str(name);
        self.retain_without(&nm);
        let ghost pred = |m: VirtualMicConfig| m.name@ != name@;
        proof {
            if has_mic(mics0, name@) {
                let j = choose|j: int| 0 <= j < mics0.len() && #[trigger] mics0[j].name@ == name@;
                lemma_drop_shrinks(mics0, pred, j);
            } else {
                assert forall|j: int| 0 <= j < mics0.len() implies #[trigger] pred(mics0[j]) by {
                    assert(!has_mic(mics0, mics0[j].name@) ==> false);
                }
                lemma_filter_keeps_all(mics0, pred);
            }
        }
        self.virtual_mics.len() < len_before
    }

    /// Keep every microphone whose name differs from `name`, in order.
    fn retain_without(&mut self, name: &String)
        ensures
            final(self).virtual_mics@ == mics_without(old(self).virtual_mics@, name@),
            final(self).device == old(self).device,
            final(self).ui == old(self).ui,
            final(self).logging == old(self).logging,
    {
        let ghost pred = |m: VirtualMicConfig| m.name@ != name@;
        let mut kept: Vec<VirtualMicConfig> = Vec::new();
        let n = self.virtual_mics.len();
        let mut i: usize = 0;
        proof {
            reveal(Seq::filter);
            assert(self.virtual_mics@.take(0) =~= Seq::<VirtualMicConfig>::empty());
        }
        while i < n
            invariant
                i <= n,
                n == self.virtual_mics@.len(),
                pred == (|m: VirtualMicConfig| m.name@ != name@),
                self.virtual_mics@ == old(self).virtual_mics@,
                self.device == old(self).device,
                self.ui == old(self).ui,
                self.logging == old(self).logging,
                kept@ == self.virtual_mics@.take(i as int).filter(pred),
            decreases n - i,
        {
            let ghost before: Seq<VirtualMicConfig> = kept@;
            if !self.virtual_mics[i].name.eq(name) {
                let m = VirtualMicConfig {
                    name: self.virtual_mics[i].name.clone(),
                    channel: self.virtual_mics[i].channel,
                };
                proof {
                    assert(m == self.virtual_mics@[i as int]);
                }
                kept.push(m);
            }
            proof {
                reveal(Seq::filter);
                let t1 = self.virtual_mics@.take(i as int + 1);
                assert(t1.drop_last() =~= self.virtual_mics@.take(i as int));
                assert(t1.last() == self.virtual_mics@[i as int]);
                if pred(self.virtual_mics@[i as int]) {
                    assert(t1.filter(pred) =~= t1.drop_last().filter(pred) + seq![t1.last()]);
                    assert(kept@ =~= before + seq![self.virtual_mics@[i as int]]);
                } else {
                    assert(t1.filter(pred) == t1.drop_last().filter(pred));
                }
            }
            i = i + 1;
        }
        proof {
            assert(self.virtual_mics@.take(n as int) =~= self.virtual_mics@);
        }
        self.virtual_mics = kept;
    }
}

proof fn lemma_drop_shrinks(s: Seq<VirtualMicConfig>, pred: spec_fn(VirtualMicConfig) -> bool, j: int)
    requires
        0 <= j < s.len(),
        !pred(s[j]),
    ensures
        s.filter(pred).len() < s.len(),
    decreases s.len(),
{
    reveal(Seq::filter);
    if j == s.len() - 1 {
        s.drop_last().lemma_filter_len(pred);
    } else {
        lemma_drop_shrinks(s.drop_last(), pred, j);
    }
}

proof fn lemma_filter_keeps_all(s: Seq<VirtualMicConfig>, pred: spec_fn(VirtualMicConfig) -> bool)
    requires
        forall|j: int| 0 <= j < s.len() ==> #[trigger] pred(s[j]),
    ensures
        s.filter(pred) == s,
    decreases s.len(),
{
    reveal(Seq::filter);
    if s.len() > 0 {
        lemma_filter_keeps_all(s.drop_last(), pred);
        assert(pred(s.last())) by {
            assert(s[s.len() - 1] == s.last());
        }
        assert(s.drop_last().push(s.last()) =~= s);
    }
}

} // verus!
