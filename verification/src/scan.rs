//! The device scanner: which configured devices are currently connected.
//!
//! The operating system's port enumeration is performed by the caller; the
//! scanner receives its outcome as a plain value and does the matching.

use vstd::prelude::*;
use vstd::string::StrSliceExecFns;
use crate::config::{Config, DeviceConfig, DeviceConfigView, DeviceIdentifier, DeviceIdentifierView};

verus! {

/// The USB identity reported for a port, when the port is a USB device.
#[derive(Clone, Copy, Debug, PartialEq, Eq, Structural)]
pub struct UsbPortId {
    pub vid: u16,
    pub pid: u16,
}

/// One currently-present serial port, as reported by the enumeration layer.
/// Ports that are not USB devices carry no `usb` record and can only be
/// matched by their name.
#[derive(Clone, Debug, PartialEq, Eq)]
pub struct PortRecord {
    pub name: String,
    pub usb: Option<UsbPortId>,
}

/// Spec-level image of a `PortRecord`.
pub struct PortRecordView {
    pub name: Seq<char>,
    pub usb: Option<UsbPortId>,
}

impl View for PortRecord {
    type V = PortRecordView;

    open spec fn view(&self) -> PortRecordView {
        PortRecordView {
            name: self.name@,
            usb: self.usb,
        }
    }
}

/// The error of the enumeration layer, as handed to the scanner.
#[derive(Clone, Debug, PartialEq, Eq)]
pub struct EnumerationError {
    pub message: String,
}

/// Why a scan failed. Enumeration failure is propagated and never turned
/// into an empty result.
#[derive(Clone, Debug, PartialEq, Eq)]
pub enum ScanError {
    /// The port enumeration itself failed; carries the reported reason.
    EnumerationFailed { message: String },
}

/// `fragment` occurs in `name` starting at position `i`.
pub open spec fn fragment_at(fragment: Seq<char>, name: Seq<char>, i: int) -> bool {
    &&& 0 <= i
    &&& i + fragment.len() <= name.len()
    &&& name.subrange(i, i + fragment.len()) == fragment
}

/// `fragment` occurs somewhere in `name` (always true of an empty fragment).
pub open spec fn is_fragment_of(fragment: Seq<char>, name: Seq<char>) -> bool {
    exists|i: int| fragment_at(fragment, name, i)
}

/// One configured identifier against one live port.
pub open spec fn id_matches(id: DeviceIdentifierView, p: PortRecordView) -> bool {
    match id {
        DeviceIdentifierView::VidPid { vid, pid } => match p.usb {
            Some(u) => u.vid == vid && u.pid == pid,
            None => false,
        },
        DeviceIdentifierView::NameFragment { fragment } => is_fragment_of(fragment, p.name),
    }
}

/// One configured descriptor against one live port.
pub open spec fn device_matches(d: DeviceConfigView, p: PortRecordView) -> bool {
    id_matches(d.identifier, p)
}

/// The descriptors from `devices` that `p` matches, in configuration order.
pub open spec fn port_matches(devices: Seq<DeviceConfigView>, p: PortRecordView) -> Seq<
    DeviceConfigView,
>
    decreases devices.len(),
{
    if devices.len() == 0 {
        Seq::empty()
    } else {
        port_matches(devices.drop_last(), p) + if device_matches(devices.last(), p) {
            seq![devices.last()]
        } else {
            Seq::<DeviceConfigView>::empty()
        }
    }
}

/// Every match over the whole port list: enumeration order first, then
/// configuration order within one port. Nothing is sorted or deduplicated.
pub open spec fn scan_matches(
    devices: Seq<DeviceConfigView>,
    ports: Seq<PortRecordView>,
) -> Seq<DeviceConfigView>
    decreases ports.len(),
{
    if ports.len() == 0 {
        Seq::empty()
    } else {
        scan_matches(devices, ports.drop_last()) + port_matches(devices, ports.last())
    }
}

/// The views of a list of descriptors.
pub open spec fn device_views(s: Seq<DeviceConfig>) -> Seq<DeviceConfigView> {
    s.map_values(|d: DeviceConfig| d@)
}

/// The views of a list of port records.
pub open spec fn port_views(s: Seq<PortRecord>) -> Seq<PortRecordView> {
    s.map_values(|p: PortRecord| p@)
}

/// The characters of `s`, one by one.
fn chars_of(s: &str) -> (r: Vec<char>)
    ensures
        r@ == s@,
{
    let n = s.unicode_len();
    let mut r: Vec<char> = Vec::new();
    let mut i: usize = 0;
    while i < n
        invariant
            i <= n,
            n == s@.len(),
            r@ == s@.take(i as int),
        decreases n - i,
    {
        r.push(s.get_char(i));
        proof {
            assert(r@ =~= s@.take(i + 1));
        }
        i = i + 1;
    }
    proof {
        assert(r@ =~= s@);
    }
    r
}

/// `fragment` compared character by character against `name` at position `i`.
fn matches_at(name: &Vec<char>, fragment: &Vec<char>, i: usize) -> (b: bool)
    requires
        i + fragment@.len() <= name@.len(),
    ensures
        b == fragment_at(fragment@, name@, i as int),
{
    let n = name.len();
    let mut j: usize = 0;
    while j < fragment.len()
        invariant
            n == name@.len(),
            i + fragment@.len() <= name@.len(),
            j <= fragment@.len(),
            forall|k: int| 0 <= k < j ==> name@[i + k] == fragment@[k],
        decreases fragment@.len() - j,
    {
        if name[i + j] != fragment[j] {
            proof {
                assert(name@.subrange(i as int, i + fragment@.len())[j as int] == name@[i + j]);
            }
            return false;
        }
        j = j + 1;
    }
    proof {
        assert(name@.subrange(i as int, i + fragment@.len()) =~= fragment@);
    }
    true
}

/// Substring search: does `fragment` occur anywhere in `name`?
fn contains_fragment(name: &Vec<char>, fragment: &Vec<char>) -> (b: bool)
    ensures
        b == is_fragment_of(fragment@, name@),
{
    if fragment.len() > name.len() {
        proof {
            assert(forall|i: int| !fragment_at(fragment@, name@, i));
        }
        return false;
    }
    if fragment.len() == 0 {
        proof {
            assert(name@.subrange(0, 0) =~= fragment@);
            assert(fragment_at(fragment@, name@, 0));
        }
        return true;
    }
    let n = name.len();
    let end = n - fragment.len();
    let mut i: usize = 0;
    while i <= end
        invariant
            n == name@.len(),
            1 <= fragment@.len() <= name@.len(),
            end == name@.len() - fragment@.len(),
            i <= end + 1,
            forall|k: int| 0 <= k < i ==> !fragment_at(fragment@, name@, k),
        decreases end + 1 - i,
    {
        if matches_at(name, fragment, i) {
            proof {
                assert(fragment_at(fragment@, name@, i as int));
            }
            return true;
        }
        i = i + 1;
    }
    proof {
        assert forall|k: int| !fragment_at(fragment@, name@, k) by {
            if 0 <= k <= end as int {
                assert(!fragment_at(fragment@, name@, k));
            }
        }
    }
    false
}

/// One descriptor against one live port, under the descriptor's strategy.
pub fn device_matches_port(d: &DeviceConfig, p: &PortRecord) -> (b: bool)
    ensures
        b == device_matches(d@, p@),
{
    match &d.identifier {
        DeviceIdentifier::VidPid { vid, pid } => match &p.usb {
            Some(u) => u.vid == *vid && u.pid == *pid,
            None => false,
        },
        DeviceIdentifier::NameFragment { fragment } => {
            let name_chars = chars_of(p.name.as_str());
            let fragment_chars = chars_of(fragment.as_str());
            contains_fragment(&name_chars, &fragment_chars)
        },
    }
}

impl Config {
    /// The configured descriptors that one port matches, in configuration
    /// order, duplicates kept.
    pub fn devices_matching_port(&self, p: &PortRecord) -> (r: Vec<DeviceConfig>)
        ensures
            device_views(r@) == port_matches(device_views(self.devices@), p@),
    {
        let ghost ds = device_views(self.devices@);
        let mut r: Vec<DeviceConfig> = Vec::new();
        let mut i: usize = 0;
        while i < self.devices.len()
            invariant
                i <= self.devices@.len(),
                ds == device_views(self.devices@),
                device_views(r@) == port_matches(ds.take(i as int), p@),
            decreases self.devices@.len() - i,
        {
            proof {
                assert(ds.take(i + 1).drop_last() =~= ds.take(i as int));
                assert(ds.take(i + 1).last() == self.devices@[i as int]@);
            }
            if device_matches_port(&self.devices[i], p) {
                r.push(self.devices[i].clone());
                proof {
                    assert(device_views(r@) =~= port_matches(ds.take(i + 1), p@));
                }
            } else {
                proof {
                    assert(device_views(r@) =~= port_matches(ds.take(i + 1), p@));
                }
            }
            i = i + 1;
        }
        proof {
            assert(ds.take(self.devices@.len() as int) =~= ds);
        }
        r
    }

    /// Pure matching: the configured devices present among `ports`, in
    /// enumeration order, then configuration order within one port.
    pub fn matching_devices(&self, ports: &Vec<PortRecord>) -> (r: Vec<DeviceConfig>)
        ensures
            device_views(r@) == scan_matches(device_views(self.devices@), port_views(ports@)),
    {
        let ghost ds = device_views(self.devices@);
        let ghost ps = port_views(ports@);
        let mut r: Vec<DeviceConfig> = Vec::new();
        let mut i: usize = 0;
        while i < ports.len()
            invariant
                i <= ports@.len(),
                ds == device_views(self.devices@),
                ps == port_views(ports@),
                device_views(r@) == scan_matches(ds, ps.take(i as int)),
            decreases ports@.len() - i,
        {
            let mut matched = self.devices_matching_port(&ports[i]);
            proof {
                assert(ps.take(i + 1).drop_last() =~= ps.take(i as int));
                assert(ps.take(i + 1).last() == ports@[i as int]@);
                assert(device_views(r@ + matched@) =~= device_views(r@) + device_views(matched@));
            }
            r.append(&mut matched);
            proof {
                assert(device_views(r@) == scan_matches(ds, ps.take(i + 1)));
            }
            i = i + 1;
        }
        proof {
            assert(ps.take(ports@.len() as int) =~= ps);
        }
        r
    }

    /// The scan entry point: fed with the outcome of port enumeration, it
    /// propagates an enumeration failure unchanged and otherwise returns the
    /// matching devices. An empty match list is a success, not an error.
    pub fn get_connected_devices(&self, enumeration: Result<Vec<PortRecord>, EnumerationError>) -> (r:
        Result<Vec<DeviceConfig>, ScanError>)
        ensures
            r is Ok <==> enumeration is Ok,
            enumeration matches Ok(ports) ==> r matches Ok(devices) && device_views(devices@)
                == scan_matches(device_views(self.devices@), port_views(ports@)),
            enumeration matches Err(e) ==> r matches Err(ScanError::EnumerationFailed { message })
                && message@ == e.message@,
    {
        match enumeration {
            Ok(ports) => Ok(self.matching_devices(&ports)),
            Err(e) => Err(ScanError::EnumerationFailed { message: e.message }),
        }
    }
}

/// Law: one port's match list holds a descriptor exactly when the
/// configuration holds it and the port matches it — no false positives, no
/// false negatives.
pub proof fn lemma_port_matches_membership(
    devices: Seq<DeviceConfigView>,
    p: PortRecordView,
    d: DeviceConfigView,
)
    ensures
        port_matches(devices, p).contains(d) <==> devices.contains(d) && device_matches(d, p),
    decreases devices.len(),
{
    if devices.len() == 0 {
        assert(!devices.contains(d));
        assert(!port_matches(devices, p).contains(d));
    } else {
        let prefix = devices.drop_last();
        let last = devices.last();
        let pm = port_matches(devices, p);
        let pmp = port_matches(prefix, p);
        lemma_port_matches_membership(prefix, p, d);
        assert(devices.contains(d) <==> prefix.contains(d) || last == d) by {
            if devices.contains(d) {
                let i = choose|i: int| 0 <= i < devices.len() && devices[i] == d;
                if i < devices.len() - 1 {
                    assert(prefix[i] == d);
                }
            }
            if prefix.contains(d) {
                let i = choose|i: int| 0 <= i < prefix.len() && prefix[i] == d;
                assert(devices[i] == d);
            }
            if last == d {
                assert(devices[devices.len() - 1] == d);
            }
        }
        assert(pm.contains(d) <==> pmp.contains(d) || (device_matches(last, p) && last == d)) by {
            if pm.contains(d) {
                let i = choose|i: int| 0 <= i < pm.len() && pm[i] == d;
                if i < pmp.len() {
                    assert(pmp[i] == d);
                }
            }
            if pmp.contains(d) {
                let i = choose|i: int| 0 <= i < pmp.len() && pmp[i] == d;
                assert(pm[i] == d);
            }
            if device_matches(last, p) && last == d {
                assert(pm[pm.len() - 1] == d);
            }
        }
    }
}

/// Law: the scan result holds a descriptor exactly when the configuration
/// holds it and some live port matches it; duplicates in the configuration
/// are matched independently.
pub proof fn lemma_scan_matches_membership(
    devices: Seq<DeviceConfigView>,
    ports: Seq<PortRecordView>,
    d: DeviceConfigView,
)
    ensures
        scan_matches(devices, ports).contains(d) <==> devices.contains(d) && exists|j: int|
            0 <= j < ports.len() && device_matches(d, ports[j]),
    decreases ports.len(),
{
    if ports.len() == 0 {
        assert(!scan_matches(devices, ports).contains(d));
    } else {
        let prefix = ports.drop_last();
        let last = ports.last();
        let sm = scan_matches(devices, ports);
        let smp = scan_matches(devices, prefix);
        let pm = port_matches(devices, last);
        lemma_scan_matches_membership(devices, prefix, d);
        lemma_port_matches_membership(devices, last, d);
        assert(sm.contains(d) <==> smp.contains(d) || pm.contains(d)) by {
            if sm.contains(d) {
                let i = choose|i: int| 0 <= i < sm.len() && sm[i] == d;
                if i < smp.len() {
                    assert(smp[i] == d);
                } else {
                    assert(pm[i - smp.len()] == d);
                }
            }
            if smp.contains(d) {
                let i = choose|i: int| 0 <= i < smp.len() && smp[i] == d;
                assert(sm[i] == d);
            }
            if pm.contains(d) {
                let i = choose|i: int| 0 <= i < pm.len() && pm[i] == d;
                assert(sm[smp.len() + i] == d);
            }
        }
        assert((exists|j: int| 0 <= j < ports.len() && device_matches(d, ports[j])) <==> (exists|
            j: int,
        |
            0 <= j < prefix.len() && device_matches(d, prefix[j])) || device_matches(d, last)) by {
            if exists|j: int| 0 <= j < ports.len() && device_matches(d, ports[j]) {
                let j = choose|j: int| 0 <= j < ports.len() && device_matches(d, ports[j]);
                if j < ports.len() - 1 {
                    assert(prefix[j] == ports[j]);
                    assert(0 <= j < prefix.len() && device_matches(d, prefix[j]));
                }
            }
            if exists|j: int| 0 <= j < prefix.len() && device_matches(d, prefix[j]) {
                let j = choose|j: int| 0 <= j < prefix.len() && device_matches(d, prefix[j]);
                assert(ports[j] == prefix[j]);
                assert(0 <= j < ports.len() && device_matches(d, ports[j]));
            }
            if device_matches(d, last) {
                assert(0 <= ports.len() - 1 < ports.len() && device_matches(
                    d,
                    ports[ports.len() - 1],
                ));
            }
        }
    }
}

/// Law: scanning the same configuration against the same port list twice
/// gives identical results, order included.
pub proof fn lemma_scan_idempotent(
    devices: Seq<DeviceConfigView>,
    ports: Seq<PortRecordView>,
    first: Seq<DeviceConfigView>,
    second: Seq<DeviceConfigView>,
)
    requires
        first == scan_matches(devices, ports),
        second == scan_matches(devices, ports),
    ensures
        first == second,
{
}

/// Law: with no live ports the scan result is empty.
pub proof fn lemma_scan_no_ports(devices: Seq<DeviceConfigView>)
    ensures
        scan_matches(devices, Seq::<PortRecordView>::empty()) == Seq::<DeviceConfigView>::empty(),
{
}

/// Law: with no configured devices the scan result is empty.
pub proof fn lemma_scan_no_devices(ports: Seq<PortRecordView>)
    ensures
        scan_matches(Seq::<DeviceConfigView>::empty(), ports) == Seq::<DeviceConfigView>::empty(),
    decreases ports.len(),
{
    if ports.len() > 0 {
        lemma_scan_no_devices(ports.drop_last());
        assert(scan_matches(Seq::<DeviceConfigView>::empty(), ports) =~= Seq::<
            DeviceConfigView,
        >::empty());
    }
}

/// A matching descriptor appears somewhere in the port's match list.
proof fn lemma_port_matches_position(devices: Seq<DeviceConfigView>, p: PortRecordView, i: int)
    requires
        0 <= i < devices.len(),
        device_matches(devices[i], p),
    ensures
        exists|k: int|
            0 <= k < port_matches(devices, p).len() && port_matches(devices, p)[k] == devices[i],
    decreases devices.len(),
{
    let pm = port_matches(devices, p);
    let prefix = devices.drop_last();
    if i == devices.len() - 1 {
        assert(pm[pm.len() - 1] == devices[i]);
    } else {
        assert(prefix[i] == devices[i]);
        lemma_port_matches_position(prefix, p, i);
        let k = choose|k: int|
            0 <= k < port_matches(prefix, p).len() && port_matches(prefix, p)[k] == prefix[i];
        assert(pm[k] == devices[i]);
    }
}

/// Law: when two configured descriptors both match one port, the port's
/// match list keeps them in configuration order.
pub proof fn lemma_port_matches_order(
    devices: Seq<DeviceConfigView>,
    p: PortRecordView,
    i: int,
    j: int,
)
    requires
        0 <= i < j < devices.len(),
        device_matches(devices[i], p),
        device_matches(devices[j], p),
    ensures
        exists|k: int, l: int|
            0 <= k < l < port_matches(devices, p).len() && port_matches(devices, p)[k] == devices[i]
                && port_matches(devices, p)[l] == devices[j],
    decreases devices.len(),
{
    let pm = port_matches(devices, p);
    let prefix = devices.drop_last();
    let pmp = port_matches(prefix, p);
    if j == devices.len() - 1 {
        assert(prefix[i] == devices[i]);
        lemma_port_matches_position(prefix, p, i);
        let k = choose|k: int| 0 <= k < pmp.len() && pmp[k] == prefix[i];
        let l = pm.len() - 1;
        assert(pm[k] == devices[i]);
        assert(pm[l] == devices[j]);
        assert(0 <= k < l < pm.len() && pm[k] == devices[i] && pm[l] == devices[j]);
    } else {
        assert(prefix[i] == devices[i]);
        assert(prefix[j] == devices[j]);
        lemma_port_matches_order(prefix, p, i, j);
        let (k, l): (int, int) = choose|k: int, l: int|
            0 <= k < l < pmp.len() && pmp[k] == prefix[i] && pmp[l] == prefix[j];
        assert(pm[k] == devices[i]);
        assert(pm[l] == devices[j]);
        assert(0 <= k < l < pm.len() && pm[k] == devices[i] && pm[l] == devices[j]);
    }
}

/// Law: a port without a USB record is never matched by a vendor/product
/// identifier, whatever the configuration holds.
pub proof fn lemma_non_usb_port_unmatched(
    devices: Seq<DeviceConfigView>,
    p: PortRecordView,
    d: DeviceConfigView,
)
    requires
        p.usb is None,
        d.identifier is VidPid,
    ensures
        !device_matches(d, p),
        !port_matches(devices, p).contains(d),
{
    lemma_port_matches_membership(devices, p, d);
}

} // verus!
