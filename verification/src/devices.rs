//! Input-device bookkeeping: the plain description of a hardware input,
//! the filter that hides this tool's own virtual devices from the pick
//! list, and case-insensitive name matching for device lookup. Device
//! enumeration itself is the shell's business; the rules live here.

use vstd::prelude::*;
use crate::protocol::DeviceInfo;
use crate::text::{
    chars_contains, chars_eq, chars_starts_with, chars_to_string, contains_seq, dec_rep, lower_of,
    lowercase, push_dec, starts_with, str_chars,
};

verus! {

/// Description of an audio input device.
#[derive(Debug, Clone)]
pub struct AudioDevice {
    pub name: String,
    pub channels: u16,
    pub sample_rate: u32,
    pub index: usize,
}

impl AudioDevice {
    /// The one-line form shown in pick lists: `name (N channels)`.
    pub fn display_string(&self) -> (r: String)
        ensures
            r@ == self.name@ + " ("@ + dec_rep(self.channels as nat) + " channels)"@,
    {
        let mut v = str_chars(self.name.as_str());
        let mut open = str_chars(" (");
        v.append(&mut open);
        push_dec(self.channels as u64, &mut v);
        let mut close = str_chars(" channels)");
        v.append(&mut close);
        chars_to_string(&v)
    }
}

/// A device name, lowercased, gives a virtual device of ours away: it
/// equals a known virtual name, one is a prefix of the other, or it
/// carries the tool's own tag anywhere when matched against that tag.
pub open spec fn matches_virtual(name_lower: Seq<char>, vname: Seq<char>) -> bool {
    name_lower == vname || starts_with(name_lower, vname) || starts_with(vname, name_lower) || (
    vname == "duomic"@ && contains_seq(name_lower, "duomic"@))
}

pub open spec fn is_virtual_spec(name: Seq<char>, vnames: Seq<Seq<char>>) -> bool {
    exists|i: int| 0 <= i < vnames.len() && matches_virtual(lower_of(name), #[trigger] vnames[i])
}

/// The names to hide from the device list: the tool's own tag, lowercased,
/// plus the lowercased name of every device the consumer reports.
pub fn get_virtual_device_names(driver_devices: &Vec<DeviceInfo>) -> (r: Vec<String>)
    ensures
        r@.map_values(|s: String| s@) == seq![lower_of("duomic"@)] + driver_devices@.map_values(
            |d: DeviceInfo| lower_of(d.name@),
        ),
{
    let mut r: Vec<String> = Vec::new();
    r.push(lowercase("duomic"));
    let n = driver_devices.len();
    let mut i: usize = 0;
    proof {
        assert(r@.map_values(|s: String| s@) =~= seq![lower_of("duomic"@)]
            + driver_devices@.map_values(|d: DeviceInfo| lower_of(d.name@)).take(0));
    }
    while i < n
        invariant
            i <= n,
            n == driver_devices@.len(),
            r@.map_values(|s: String| s@) == seq![lower_of("duomic"@)]
                + driver_devices@.map_values(|d: DeviceInfo| lower_of(d.name@)).take(i as int),
        decreases n - i,
    {
        let ghost before: Seq<String> = r@;
        r.push(lowercase(driver_devices[i].name.as_str()));
        proof {
            let lows = driver_devices@.map_values(|d: DeviceInfo| lower_of(d.name@));
            assert(r@.map_values(|s: String| s@) =~= before.map_values(|s: String| s@) + seq![
                lows[i as int]]);
            assert(seq![lower_of("duomic"@)] + lows.take(i as int) + seq![lows[i as int]] =~= seq![
                lower_of("duomic"@)] + lows.take(i as int + 1));
        }
        i = i + 1;
    }
    proof {
        let lows = driver_devices@.map_values(|d: DeviceInfo| lower_of(d.name@));
        assert(lows.take(n as int) =~= lows);
    }
    r
}

/// Whether a device name belongs to one of our virtual devices and must be
/// hidden from the pick list.
pub fn is_virtual_device(name: &str, virtual_names: &Vec<String>) -> (r: bool)
    ensures
        r == is_virtual_spec(name@, virtual_names@.map_values(|s: String| s@)),
{
    let low = lowercase(name);
    let nl = str_chars(low.as_str());
    let duo = str_chars("duomic");
    let n = virtual_names.len();
    let ghost vnames: Seq<Seq<char>> = virtual_names@.map_values(|s: String| s@);
    let mut i: usize = 0;
    while i < n
        invariant
            i <= n,
            n == virtual_names@.len(),
            nl@ == lower_of(name@),
            duo@ == "duomic"@,
            vnames == virtual_names@.map_values(|s: String| s@),
            forall|j: int| 0 <= j < i ==> !matches_virtual(lower_of(name@), #[trigger] vnames[j]),
        decreases n - i,
    {
        let vc = str_chars(virtual_names[i].as_str());
        assert(vc@ == vnames[i as int]);
        let hit = chars_eq(&nl, &vc) || chars_starts_with(&nl, &vc) || chars_starts_with(&vc, &nl)
            || (chars_eq(&vc, &duo) && chars_contains(&nl, &duo));
        if hit {
            return true;
        }
        i = i + 1;
    }
    false
}

/// A device name matches a query when the lowercased name holds the
/// lowercased query as a substring.
pub open spec fn name_matches(device_name: Seq<char>, query: Seq<char>) -> bool {
    contains_seq(lower_of(device_name), lower_of(query))
}

/// Case-insensitive partial match of a device name against a query.
pub fn device_name_matches(device_name: &str, query: &str) -> (r: bool)
    ensures
        r == name_matches(device_name@, query@),
{
    let dl = lowercase(device_name);
    let ql = lowercase(query);
    let dc = str_chars(dl.as_str());
    let qc = str_chars(ql.as_str());
    chars_contains(&dc, &qc)
}

/// Find the first device whose name matches the query, case-insensitively
/// and allowing a partial match.
pub fn find_device_by_name(devices: &Vec<AudioDevice>, name: &str) -> (r: Option<AudioDevice>)
    ensures
        match r {
            Some(d) => exists|i: int|
                0 <= i < devices@.len() && d == devices@[i] && name_matches(
                    #[trigger] devices@[i].name@,
                    name@,
                ) && forall|j: int| 0 <= j < i ==> !name_matches(#[trigger] devices@[j].name@, name@),
            None => forall|j: int|
                0 <= j < devices@.len() ==> !name_matches(#[trigger] devices@[j].name@, name@),
        },
{
    let n = devices.len();
    let mut i: usize = 0;
    while i < n
        invariant
            i <= n,
            n == devices@.len(),
            forall|j: int| 0 <= j < i ==> !name_matches(#[trigger] devices@[j].name@, name@),
        decreases n - i,
    {
        if device_name_matches(devices[i].name.as_str(), name) {
            let d = AudioDevice {
                name: devices[i].name.clone(),
                channels: devices[i].channels,
                sample_rate: devices[i].sample_rate,
                index: devices[i].index,
            };
            proof {
                assert(d == devices@[i as int]);
            }
            return Some(d);
        }
        i = i + 1;
    }
    None
}

} // verus!
