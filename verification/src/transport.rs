//! Device discovery and selection, over plain descriptions of the system's
//! HID collections.
//!
//! Opening handles and sending reports is the caller's job; what is decided
//! here is which collections are worth opening, which devices a scan looks
//! at and what is already believed of them, which candidate to drive, and
//! what each is called.

use vstd::prelude::*;

use crate::device::{id_text, link_suffix, DeviceId, Link};
use crate::text::{push_str, string_from_chars};

verus! {

/// The generic-desktop usage page, which the operating system claims.
pub const USAGE_PAGE_GENERIC_DESKTOP: u16 = 0x0001;

/// The consumer-control usage page, which the operating system claims.
pub const USAGE_PAGE_CONSUMER: u16 = 0x000c;

/// The keyboard usage on the generic-desktop page.
pub const USAGE_KEYBOARD: u16 = 0x0006;

/// Vendor-defined usage pages start here.
pub const USAGE_PAGE_VENDOR_MIN: u16 = 0xff00;

/// How much a candidate is trusted.
#[derive(Clone, Copy, PartialEq, Eq, Debug, Structural)]
pub enum Confidence {
    /// In the built-in table or the caller's allow-list.
    Known,
    /// Turned up by a deep scan of hardware nothing recognises.
    Probed,
}

/// One HID collection on the system, as enumeration describes it.
#[derive(Debug)]
pub struct CollectionInfo {
    pub id: DeviceId,
    pub path: String,
    pub usage_page: u16,
    pub usage: u16,
    pub interface: i32,
    pub product: String,
    pub manufacturer: String,
}

/// A collection as plain values.
pub open spec fn info_view(c: CollectionInfo) -> (DeviceId, Seq<char>, u16, u16, i32, Seq<char>, Seq<char>) {
    (c.id, c.path@, c.usage_page, c.usage, c.interface, c.product@, c.manufacturer@)
}

impl Clone for CollectionInfo {
    fn clone(&self) -> (c: Self)
        ensures
            info_view(c) == info_view(*self),
    {
        CollectionInfo {
            id: self.id,
            path: self.path.clone(),
            usage_page: self.usage_page,
            usage: self.usage,
            interface: self.interface,
            product: self.product.clone(),
            manufacturer: self.manufacturer.clone(),
        }
    }
}

pub open spec fn spec_is_vendor(c: CollectionInfo) -> bool {
    c.usage_page >= USAGE_PAGE_VENDOR_MIN
}

pub open spec fn spec_is_os_owned(c: CollectionInfo) -> bool {
    c.usage_page == USAGE_PAGE_GENERIC_DESKTOP || c.usage_page == USAGE_PAGE_CONSUMER
}

impl CollectionInfo {
    /// Would discovery try to open this collection?
    pub fn is_vendor(&self) -> (b: bool)
        ensures
            b == spec_is_vendor(*self),
    {
        self.usage_page >= USAGE_PAGE_VENDOR_MIN
    }

    /// Is this one of the collections the OS keeps for itself?
    pub fn is_os_owned(&self) -> (b: bool)
        ensures
            b == spec_is_os_owned(*self),
    {
        self.usage_page == USAGE_PAGE_GENERIC_DESKTOP || self.usage_page == USAGE_PAGE_CONSUMER
    }
}

/// One device that answered the protocol probe.
#[derive(Debug)]
pub struct DeviceCandidate {
    pub id: DeviceId,
    pub link: Link,
    pub model: &'static str,
    /// HID path of the collection that answered. Valid only for the lifetime
    /// of one enumeration: never persisted.
    pub path: String,
    pub product: String,
    pub confidence: Confidence,
    /// The device returned a config block with the protocol's signature: the
    /// difference between "some vendor collection accepted a feature report"
    /// and "this is an AULA board".
    pub confirmed: bool,
}

impl Clone for DeviceCandidate {
    fn clone(&self) -> (c: Self)
        ensures
            c.id == self.id,
            c.link == self.link,
            c.model == self.model,
            c.path@ == self.path@,
            c.product@ == self.product@,
            c.confidence == self.confidence,
            c.confirmed == self.confirmed,
    {
        DeviceCandidate {
            id: self.id,
            link: self.link,
            model: self.model,
            path: self.path.clone(),
            product: self.product.clone(),
            confidence: self.confidence,
            confirmed: self.confirmed,
        }
    }
}

/// What the UI, the tray tooltip and the command line call a candidate.
pub open spec fn candidate_label(c: DeviceCandidate) -> Seq<char> {
    match (c.confidence, c.confirmed) {
        (Confidence::Known, true) => c.model@ + " ("@ + link_suffix(c.link) + ")"@,
        (Confidence::Known, false) => c.model@ + " ("@ + link_suffix(c.link) + ", not answering)"@,
        (Confidence::Probed, true) => c.model@ + " ("@ + link_suffix(c.link) + ", unverified)"@,
        (Confidence::Probed, false) => (if c.product@.len() == 0 {
            "unknown device"@
        } else {
            c.product@
        }) + " ("@ + id_text(c.id) + ", unverified)"@,
    }
}

impl DeviceCandidate {
    /// What the UI, the tray tooltip and the command line call this device.
    ///
    /// Known hardware that answered the report but not the config read is
    /// shown as not answering rather than hidden. A probed device nothing has
    /// confirmed is named by what the device itself reports, not by the model.
    pub fn label(&self) -> (s: String)
        ensures
            s@ == candidate_label(*self),
    {
        let mut v: Vec<char> = Vec::new();
        match (self.confidence, self.confirmed) {
            (Confidence::Known, true) => {
                push_str(&mut v, self.model);
                push_str(&mut v, " (");
                push_str(&mut v, self.link.suffix());
                push_str(&mut v, ")");
            },
            (Confidence::Known, false) => {
                push_str(&mut v, self.model);
                push_str(&mut v, " (");
                push_str(&mut v, self.link.suffix());
                push_str(&mut v, ", not answering)");
            },
            (Confidence::Probed, true) => {
                push_str(&mut v, self.model);
                push_str(&mut v, " (");
                push_str(&mut v, self.link.suffix());
                push_str(&mut v, ", unverified)");
            },
            (Confidence::Probed, false) => {
                if self.product.as_str().is_empty() {
                    push_str(&mut v, "unknown device");
                } else {
                    push_str(&mut v, self.product.as_str());
                }
                push_str(&mut v, " (");
                let t = self.id.to_text();
                push_str(&mut v, t.as_str());
                push_str(&mut v, ", unverified)");
            },
        }
        assert(v@ =~= candidate_label(*self));
        string_from_chars(&v)
    }
}

/// How wide to cast the net.
#[derive(Debug)]
pub struct ScanOptions {
    /// Extra ids to treat exactly like the built-in known table, from settings.
    pub allow: Vec<DeviceId>,
    /// Also probe hardware nothing recognises. User-initiated only: opening a
    /// vendor collection can take the handle away from another vendor's
    /// utility, so it must never happen on a timer.
    pub deep: bool,
    /// With `deep`, drop the requirement that the device also present a
    /// keyboard collection.
    pub include_non_keyboards: bool,
}

impl Clone for ScanOptions {
    fn clone(&self) -> (o: Self)
        ensures
            o.allow@ == self.allow@,
            o.deep == self.deep,
            o.include_non_keyboards == self.include_non_keyboards,
    {
        let allow = self.allow.clone();
        assert(allow@ =~= self.allow@);
        ScanOptions { allow, deep: self.deep, include_non_keyboards: self.include_non_keyboards }
    }
}

impl Default for ScanOptions {
    fn default() -> (o: Self)
        ensures
            o.allow@.len() == 0,
            !o.deep,
            !o.include_non_keyboards,
    {
        ScanOptions { allow: Vec::new(), deep: false, include_non_keyboards: false }
    }
}

/// What a scan is looking for.
pub struct ScanSpec<'a> {
    pub model: &'static str,
    pub report_id: u8,
    pub packet_len: usize,
    /// Built-in known devices and the link each one implies.
    pub known: Vec<(DeviceId, Link)>,
    pub opts: &'a ScanOptions,
}

/// What happened when one collection was probed.
#[derive(Debug, PartialEq)]
pub enum ProbeResult {
    /// Accepted a full-length feature report on the protocol's report id.
    Answered {
        /// Whether it also returned data the protocol layer recognises.
        confirmed: bool,
    },
    /// Opened, but would not accept the protocol's report id at all.
    Silent,
    /// A top-level collection the OS keeps for itself.
    OsOwned,
    /// Could not be opened. On Linux this usually means a missing udev rule.
    Unopenable(String),
}

/// One collection and what probing it revealed. Diagnostics only.
#[derive(Debug)]
pub struct CollectionProbe {
    pub info: CollectionInfo,
    pub result: ProbeResult,
}

/// Indices, in order, of the first `n` collections that satisfy `pred`.
pub open spec fn indices_where(all: Seq<CollectionInfo>, pred: spec_fn(CollectionInfo) -> bool, n: int) -> Seq<usize>
    decreases n,
{
    if n <= 0 {
        Seq::empty()
    } else if pred(all[n - 1]) {
        indices_where(all, pred, n - 1).push((n - 1) as usize)
    } else {
        indices_where(all, pred, n - 1)
    }
}

/// Every collection of one device.
pub open spec fn of_device(id: DeviceId) -> spec_fn(CollectionInfo) -> bool {
    |c: CollectionInfo| c.id == id
}

/// A vendor collection of one device.
pub open spec fn vendor_of_device(id: DeviceId) -> spec_fn(CollectionInfo) -> bool {
    |c: CollectionInfo| c.id == id && spec_is_vendor(c)
}

/// A collection of one device that the OS has not claimed.
pub open spec fn unclaimed_of_device(id: DeviceId) -> spec_fn(CollectionInfo) -> bool {
    |c: CollectionInfo| c.id == id && !spec_is_os_owned(c)
}

/// The collections of one device, as indices into `all`.
pub fn collections(all: &[CollectionInfo], id: DeviceId) -> (r: Vec<usize>)
    ensures
        r@ == indices_where(all@, of_device(id), all@.len() as int),
{
    let mut r: Vec<usize> = Vec::new();
    let mut i: usize = 0;
    while i < all.len()
        invariant
            i <= all@.len(),
            r@ == indices_where(all@, of_device(id), i as int),
        decreases all@.len() - i,
    {
        if all[i].id == id {
            r.push(i);
        }
        i = i + 1;
    }
    r
}

/// Which collections discovery opens on a device: its vendor-page ones, or,
/// on a trusted device that has none, every one the OS has not claimed.
pub open spec fn spec_openable(all: Seq<CollectionInfo>, id: DeviceId, trusted: bool) -> Seq<usize> {
    if indices_where(all, vendor_of_device(id), all.len() as int).len() > 0 || !trusted {
        indices_where(all, vendor_of_device(id), all.len() as int)
    } else {
        indices_where(all, unclaimed_of_device(id), all.len() as int)
    }
}

/// Discovery keeps away from what the system owns: every collection it would
/// open is one of the device asked about, and none is a collection the
/// operating system has claimed for itself.
pub proof fn lemma_discovery_leaves_os_collections_alone(all: Seq<CollectionInfo>, id: DeviceId, trusted: bool)
    requires
        all.len() <= usize::MAX,
    ensures
        forall|k: int|
            0 <= k < spec_openable(all, id, trusted).len() ==> {
                let i = #[trigger] spec_openable(all, id, trusted)[k] as int;
                &&& 0 <= i < all.len()
                &&& all[i].id == id
                &&& !spec_is_os_owned(all[i])
            },
{
    lemma_indices_in_range(all, vendor_of_device(id), all.len() as int);
    lemma_indices_in_range(all, unclaimed_of_device(id), all.len() as int);
}

/// The collections worth trying to open on one device, as indices into
/// `all`.
///
/// Vendor-page collections, if the device has any. `trusted` relaxes the
/// filter for hardware already believed to be ours: the hidraw backend on
/// Linux has reported a usage page only for the first top-level collection,
/// which would leave the vendor filter matching nothing. Falling back to
/// anything the OS has not claimed recovers those, and is only safe on a
/// device we already recognise.
pub fn openable_collections(all: &[CollectionInfo], id: DeviceId, trusted: bool) -> (r: Vec<usize>)
    ensures
        r@ == spec_openable(all@, id, trusted),
{
    let mut vendor: Vec<usize> = Vec::new();
    let mut i: usize = 0;
    while i < all.len()
        invariant
            i <= all@.len(),
            vendor@ == indices_where(all@, vendor_of_device(id), i as int),
        decreases all@.len() - i,
    {
        if all[i].id == id && all[i].is_vendor() {
            vendor.push(i);
        }
        i = i + 1;
    }
    if vendor.len() > 0 || !trusted {
        return vendor;
    }
    let mut other: Vec<usize> = Vec::new();
    let mut j: usize = 0;
    while j < all.len()
        invariant
            j <= all@.len(),
            other@ == indices_where(all@, unclaimed_of_device(id), j as int),
        decreases all@.len() - j,
    {
        if all[j].id == id && !all[j].is_os_owned() {
            other.push(j);
        }
        j = j + 1;
    }
    other
}

/// Every collection matching a vendor and product id, for diagnostics.
pub fn list_collections(all: &[CollectionInfo], vid: u16, pid: u16) -> (r: Vec<CollectionInfo>)
    ensures
        r@.len() == indices_where(all@, of_device(DeviceId { vid, pid }), all@.len() as int).len(),
        forall|k: int|
            0 <= k < r@.len() ==> info_view(#[trigger] r@[k]) == info_view(
                all@[indices_where(all@, of_device(DeviceId { vid, pid }), all@.len() as int)[k] as int],
            ),
{
    let id = DeviceId::new(vid, pid);
    let idx = collections(all, id);
    let ghost w = indices_where(all@, of_device(id), all@.len() as int);
    let n = all.len();
    proof {
        lemma_indices_in_range(all@, of_device(id), all@.len() as int);
    }
    let mut r: Vec<CollectionInfo> = Vec::new();
    let mut k: usize = 0;
    while k < idx.len()
        invariant
            k <= idx@.len(),
            idx@ == w,
            forall|j: int| 0 <= j < w.len() ==> w[j] < all@.len(),
            r@.len() == k,
            forall|j: int| 0 <= j < k ==> info_view(#[trigger] r@[j]) == info_view(all@[w[j] as int]),
        decreases idx@.len() - k,
    {
        let c = all[idx[k]].clone();
        r.push(c);
        k = k + 1;
    }
    r
}

proof fn lemma_indices_in_range(all: Seq<CollectionInfo>, pred: spec_fn(CollectionInfo) -> bool, n: int)
    requires
        0 <= n <= all.len(),
        n <= usize::MAX,
    ensures
        forall|j: int| 0 <= j < indices_where(all, pred, n).len() ==> indices_where(all, pred, n)[j] < n,
        forall|j: int|
            0 <= j < indices_where(all, pred, n).len() ==> pred(all[indices_where(all, pred, n)[j] as int]),
    decreases n,
{
    if n > 0 {
        lemma_indices_in_range(all, pred, n - 1);
        let prev = indices_where(all, pred, n - 1);
        let cur = indices_where(all, pred, n);
        if pred(all[n - 1]) {
            assert(cur == prev.push((n - 1) as usize));
            assert forall|j: int| 0 <= j < cur.len() implies cur[j] < n && pred(all[cur[j] as int]) by {
                if j < prev.len() {
                    assert(cur[j] == prev[j]);
                }
            }
        }
    }
}

/// The outcome of picking a device to drive.
#[derive(Clone, Copy, Debug, PartialEq, Eq, Structural)]
pub enum Choice {
    /// Index into the candidate list.
    Use(usize),
    /// The user pinned this device and it is not here.
    PinnedMissing(DeviceId),
    /// Nothing to drive: no candidates and no pin.
    Nothing,
}

/// The order candidates are preferred in with nothing pinned: wired first,
/// then a receiver, then anything else; a confirmed device before an
/// unconfirmed one on the same link.
pub open spec fn rank(c: DeviceCandidate) -> int {
    let link = match c.link {
        Link::Wired => 0int,
        Link::Dongle => 1,
        Link::Unknown => 2,
    };
    2 * link + if c.confirmed {
        0int
    } else {
        1
    }
}

/// The first candidate at or after `k` with this id.
pub open spec fn position_of(cs: Seq<DeviceCandidate>, id: DeviceId, k: int) -> Option<int>
    decreases cs.len() - k,
{
    if k < 0 || k >= cs.len() {
        None
    } else if cs[k].id == id {
        Some(k)
    } else {
        position_of(cs, id, k + 1)
    }
}

/// What `choose_device` decides: a pin is honoured or reported missing, never
/// substituted; with no pin, the first candidate of the best rank.
pub open spec fn spec_choice_ok(cs: Seq<DeviceCandidate>, pinned: Option<DeviceId>, r: Choice) -> bool {
    match pinned {
        Some(id) => match position_of(cs, id, 0) {
            Some(i) => r == Choice::Use(i as usize),
            None => r == Choice::PinnedMissing(id),
        },
        None => if cs.len() == 0 {
            r == Choice::Nothing
        } else {
            &&& r matches Choice::Use(i)
            &&& 0 <= i < cs.len()
            &&& forall|j: int| 0 <= j < cs.len() ==> rank(cs[i as int]) <= rank(#[trigger] cs[j])
            &&& forall|j: int| 0 <= j < i ==> rank(cs[i as int]) < rank(#[trigger] cs[j])
        },
    }
}

fn rank_of(c: &DeviceCandidate) -> (r: u8)
    ensures
        r == rank(*c),
{
    let link: u8 = match c.link {
        Link::Wired => 0,
        Link::Dongle => 1,
        Link::Unknown => 2,
    };
    2 * link + if c.confirmed {
        0
    } else {
        1
    }
}

/// What is asked of a choice with nothing pinned, in the candidates' own
/// terms: a wired board whenever there is one, else a receiver whenever there
/// is one; on that link a confirmed device whenever there is one; and of
/// equals, the first listed.
pub open spec fn prefers_wired_then_confirmed(cs: Seq<DeviceCandidate>, i: int) -> bool {
    &&& 0 <= i < cs.len()
    &&& (exists|j: int| 0 <= j < cs.len() && (#[trigger] cs[j]).link == Link::Wired) ==> cs[i].link
        == Link::Wired
    &&& (exists|j: int| 0 <= j < cs.len() && (#[trigger] cs[j]).link == Link::Dongle) ==> cs[i].link
        != Link::Unknown
    &&& (exists|j: int| 0 <= j < cs.len() && (#[trigger] cs[j]).link == cs[i].link && cs[j].confirmed)
        ==> cs[i].confirmed
    &&& forall|j: int|
        0 <= j < i ==> !((#[trigger] cs[j]).link == cs[i].link && cs[j].confirmed == cs[i].confirmed)
}

/// With nothing pinned, the choice is a wired board if any is present, else
/// a receiver if any is; among the devices on that link a confirmed one
/// beats an unconfirmed one, and the first listed wins a tie. Confirmation
/// never outranks the link.
pub proof fn lemma_choice_prefers_wired_then_confirmed(cs: Seq<DeviceCandidate>, r: Choice)
    requires
        spec_choice_ok(cs, None, r),
        cs.len() > 0,
    ensures
        r matches Choice::Use(i) && prefers_wired_then_confirmed(cs, i as int),
{
    let i = r->Use_0 as int;
    assert forall|j: int| 0 <= j < cs.len() && (#[trigger] cs[j]).link == Link::Wired implies cs[i].link
        == Link::Wired by {
        assert(rank(cs[i]) <= rank(cs[j]));
    }
    assert forall|j: int| 0 <= j < cs.len() && (#[trigger] cs[j]).link == Link::Dongle implies cs[i].link
        != Link::Unknown by {
        assert(rank(cs[i]) <= rank(cs[j]));
    }
    assert forall|j: int| 0 <= j < cs.len() && (#[trigger] cs[j]).link == cs[i].link && cs[j].confirmed implies cs[i].confirmed by {
        assert(rank(cs[i]) <= rank(cs[j]));
    }
    assert forall|j: int| 0 <= j < i implies !((#[trigger] cs[j]).link == cs[i].link && cs[j].confirmed
        == cs[i].confirmed) by {
        assert(rank(cs[i]) < rank(cs[j]));
    }
}

/// Decide which candidate to drive.
///
/// A pin is honoured or reported missing, never silently substituted: someone
/// who pinned the receiver and then unplugged it must not find the app quietly
/// lighting the wired board instead. With no pin: wired first, then a
/// receiver, and a confirmed device beats an unconfirmed one either way; among
/// equals, the first listed.
pub fn choose_device(candidates: &[DeviceCandidate], pinned: Option<DeviceId>) -> (r: Choice)
    ensures
        spec_choice_ok(candidates@, pinned, r),
        pinned is None && candidates@.len() > 0 ==> (r matches Choice::Use(i)
            && prefers_wired_then_confirmed(candidates@, i as int)),
{
    match pinned {
        Some(id) => {
            let mut i: usize = 0;
            while i < candidates.len()
                invariant
                    i <= candidates@.len(),
                    pinned == Some(id),
                    position_of(candidates@, id, 0) == position_of(candidates@, id, i as int),
                decreases candidates@.len() - i,
            {
                if candidates[i].id == id {
                    assert(position_of(candidates@, id, i as int) == Some(i as int));
                    return Choice::Use(i);
                }
                i = i + 1;
            }
            Choice::PinnedMissing(id)
        },
        None => {
            if candidates.len() == 0 {
                return Choice::Nothing;
            }
            let mut best: usize = 0;
            let mut best_rank = rank_of(&candidates[0]);
            let mut i: usize = 1;
            while i < candidates.len()
                invariant
                    1 <= i <= candidates@.len(),
                    best < i,
                    best_rank == rank(candidates@[best as int]),
                    forall|j: int| 0 <= j < i ==> best_rank <= rank(#[trigger] candidates@[j]),
                    forall|j: int| 0 <= j < best ==> best_rank < rank(#[trigger] candidates@[j]),
                decreases candidates@.len() - i,
            {
                let r = rank_of(&candidates[i]);
                if r < best_rank {
                    best = i;
                    best_rank = r;
                }
                i = i + 1;
            }
            proof {
                lemma_choice_prefers_wired_then_confirmed(candidates@, Choice::Use(best));
            }
            Choice::Use(best)
        },
    }
}

/// The first link the known table gives an id.
pub open spec fn known_link(known: Seq<(DeviceId, Link)>, id: DeviceId, k: int) -> Option<Link>
    decreases known.len() - k,
{
    if k < 0 || k >= known.len() {
        None
    } else if known[k].0 == id {
        Some(known[k].1)
    } else {
        known_link(known, id, k + 1)
    }
}

/// Some collection of the device has the given usage page and usage.
pub open spec fn has_usage(all: Seq<CollectionInfo>, id: DeviceId, page: u16, usage: u16) -> bool {
    exists|i: int| 0 <= i < all.len() && all[i].id == id && all[i].usage_page == page && all[i].usage == usage
}

/// Some collection of the device is on a vendor page.
pub open spec fn has_vendor(all: Seq<CollectionInfo>, id: DeviceId) -> bool {
    exists|i: int| 0 <= i < all.len() && all[i].id == id && spec_is_vendor(all[i])
}

/// What a scan believes of a device: the built-in table first, then the
/// allow-list (as a link nothing recognises: something that confirmed the
/// wired config block speaks the wired protocol, whatever it is plugged into),
/// then, on a deep scan, any keyboard-shaped device with a vendor collection.
pub open spec fn classify(all: Seq<CollectionInfo>, known: Seq<(DeviceId, Link)>, opts: ScanOptions, id: DeviceId) -> Option<(Link, Confidence)> {
    match known_link(known, id, 0) {
        Some(l) => Some((l, Confidence::Known)),
        None => if opts.allow@.contains(id) {
            Some((Link::Unknown, Confidence::Known))
        } else if opts.deep && (opts.include_non_keyboards || has_usage(
            all,
            id,
            USAGE_PAGE_GENERIC_DESKTOP,
            USAGE_KEYBOARD,
        )) && has_vendor(all, id) {
            Some((Link::Unknown, Confidence::Probed))
        } else {
            None
        },
    }
}

/// Ids in a stable order, so a picker does not reshuffle between scans.
pub open spec fn id_key(id: DeviceId) -> int {
    id.vid * 65536 + id.pid
}

fn id_before(a: DeviceId, b: DeviceId) -> (r: bool)
    ensures
        r == (id_key(a) < id_key(b)),
{
    a.vid < b.vid || (a.vid == b.vid && a.pid < b.pid)
}

fn known_link_of(known: &Vec<(DeviceId, Link)>, id: DeviceId) -> (r: Option<Link>)
    ensures
        r == known_link(known@, id, 0),
{
    let mut k: usize = 0;
    while k < known.len()
        invariant
            k <= known@.len(),
            known_link(known@, id, 0) == known_link(known@, id, k as int),
        decreases known@.len() - k,
    {
        if known[k].0 == id {
            return Some(known[k].1);
        }
        k = k + 1;
    }
    None
}

fn contains_id(ids: &Vec<DeviceId>, id: DeviceId) -> (b: bool)
    ensures
        b == ids@.contains(id),
{
    let mut k: usize = 0;
    while k < ids.len()
        invariant
            k <= ids@.len(),
            forall|j: int| 0 <= j < k ==> ids@[j] != id,
        decreases ids@.len() - k,
    {
        if ids[k] == id {
            assert(ids@[k as int] == id);
            return true;
        }
        k = k + 1;
    }
    false
}

fn has_usage_exec(all: &[CollectionInfo], id: DeviceId, page: u16, usage: u16) -> (b: bool)
    ensures
        b == has_usage(all@, id, page, usage),
{
    let mut k: usize = 0;
    while k < all.len()
        invariant
            k <= all@.len(),
            forall|j: int| 0 <= j < k ==> !(all@[j].id == id && all@[j].usage_page == page && all@[j].usage == usage),
        decreases all@.len() - k,
    {
        if all[k].id == id && all[k].usage_page == page && all[k].usage == usage {
            return true;
        }
        k = k + 1;
    }
    false
}

fn has_vendor_exec(all: &[CollectionInfo], id: DeviceId) -> (b: bool)
    ensures
        b == has_vendor(all@, id),
{
    let mut k: usize = 0;
    while k < all.len()
        invariant
            k <= all@.len(),
            forall|j: int| 0 <= j < k ==> !(all@[j].id == id && spec_is_vendor(all@[j])),
        decreases all@.len() - k,
    {
        if all[k].id == id && all[k].is_vendor() {
            return true;
        }
        k = k + 1;
    }
    false
}

/// Does this device present a keyboard, as a receiver for one would?
///
/// Cheap, and it keeps a deep scan away from fingerprint readers, webcams and
/// anything else that merely happens to have a vendor collection.
pub fn is_keyboard_shaped(all: &[CollectionInfo], id: DeviceId) -> (b: bool)
    ensures
        b == has_usage(all@, id, USAGE_PAGE_GENERIC_DESKTOP, USAGE_KEYBOARD),
{
    has_usage_exec(all, id, USAGE_PAGE_GENERIC_DESKTOP, USAGE_KEYBOARD)
}

fn classify_exec(all: &[CollectionInfo], spec: &ScanSpec, id: DeviceId) -> (r: Option<(Link, Confidence)>)
    ensures
        r == classify(all@, spec.known@, *spec.opts, id),
{
    match known_link_of(&spec.known, id) {
        Some(l) => Some((l, Confidence::Known)),
        None => {
            if contains_id(&spec.opts.allow, id) {
                Some((Link::Unknown, Confidence::Known))
            } else if spec.opts.deep && (spec.opts.include_non_keyboards || is_keyboard_shaped(all, id))
                && has_vendor_exec(all, id) {
                Some((Link::Unknown, Confidence::Probed))
            } else {
                None
            }
        },
    }
}

/// Ids strictly ascending, so each appears once.
pub open spec fn ascending(r: Seq<(DeviceId, Link, Confidence)>) -> bool {
    forall|i: int, j: int| 0 <= i < j < r.len() ==> id_key(r[i].0) < id_key(r[j].0)
}

proof fn lemma_insert_ascending(r: Seq<(DeviceId, Link, Confidence)>, pos: int, x: (DeviceId, Link, Confidence))
    requires
        ascending(r),
        0 <= pos <= r.len(),
        forall|j: int| 0 <= j < pos ==> id_key(r[j].0) < id_key(x.0),
        pos < r.len() ==> id_key(x.0) < id_key(r[pos].0),
    ensures
        ascending(r.insert(pos, x)),
{
    let t = r.insert(pos, x);
    assert forall|i: int, j: int| 0 <= i < j < t.len() implies id_key(t[i].0) < id_key(t[j].0) by {
        if i < pos && j > pos {
            assert(t[i] == r[i]);
            assert(t[j] == r[j - 1]);
        } else if i > pos {
            assert(t[i] == r[i - 1]);
            assert(t[j] == r[j - 1]);
        } else if j < pos {
            assert(t[i] == r[i]);
            assert(t[j] == r[j]);
        } else if i == pos {
            assert(t[j] == r[j - 1]);
            if j - 1 > pos {
                assert(id_key(r[pos].0) < id_key(r[j - 1].0));
            }
        } else {
            assert(t[i] == r[i]);
        }
    }
}

/// Every entry is a device present in the first `k` collections, with what
/// the scan believes of it.
#[verifier::opaque]
pub open spec fn entries_justified(all: Seq<CollectionInfo>, known: Seq<(DeviceId, Link)>, opts: ScanOptions, r: Seq<(DeviceId, Link, Confidence)>, k: int) -> bool {
    forall|i: int|
        0 <= i < r.len() ==> (exists|m: int| 0 <= m < k && all[m].id == (#[trigger] r[i]).0)
            && classify(all, known, opts, r[i].0) == Some((r[i].1, r[i].2))
}

/// Every device among the first `k` collections that the scan believes in
/// has an entry.
#[verifier::opaque]
pub open spec fn entries_complete(all: Seq<CollectionInfo>, known: Seq<(DeviceId, Link)>, opts: ScanOptions, r: Seq<(DeviceId, Link, Confidence)>, k: int) -> bool {
    forall|m: int|
        0 <= m < k && (#[trigger] classify(all, known, opts, all[m].id)) is Some ==> exists|i: int|
            0 <= i < r.len() && r[i].0 == all[m].id
}

proof fn lemma_insert_keeps_entries(all: Seq<CollectionInfo>, known: Seq<(DeviceId, Link)>, opts: ScanOptions, r: Seq<(DeviceId, Link, Confidence)>, k: int, pos: int)
    requires
        0 <= k < all.len(),
        0 <= pos <= r.len(),
        entries_justified(all, known, opts, r, k),
        entries_complete(all, known, opts, r, k),
        classify(all, known, opts, all[k].id) is Some,
    ensures
        ({
            let c = classify(all, known, opts, all[k].id).unwrap();
            let t = r.insert(pos, (all[k].id, c.0, c.1));
            entries_justified(all, known, opts, t, k + 1) && entries_complete(all, known, opts, t, k + 1)
        }),
{
    reveal(entries_justified);
    reveal(entries_complete);
    let c = classify(all, known, opts, all[k].id).unwrap();
    let t = r.insert(pos, (all[k].id, c.0, c.1));
    assert forall|i: int|
        0 <= i < t.len() implies (exists|m: int| 0 <= m < k + 1 && all[m].id == (#[trigger] t[i]).0)
            && classify(all, known, opts, t[i].0) == Some((t[i].1, t[i].2)) by {
        if i < pos {
            assert(t[i] == r[i]);
        } else if i > pos {
            assert(t[i] == r[i - 1]);
        } else {
            assert(all[k].id == t[i].0);
        }
    }
    assert forall|m: int|
        0 <= m < k + 1 && (#[trigger] classify(all, known, opts, all[m].id)) is Some implies exists|i: int|
            0 <= i < t.len() && t[i].0 == all[m].id by {
        if m == k {
            assert(t[pos].0 == all[m].id);
        } else {
            let i = choose|i: int| 0 <= i < r.len() && r[i].0 == all[m].id;
            if i < pos {
                assert(t[i] == r[i]);
            } else {
                assert(t[i + 1] == r[i]);
            }
        }
    }
}

proof fn lemma_skip_keeps_entries(all: Seq<CollectionInfo>, known: Seq<(DeviceId, Link)>, opts: ScanOptions, r: Seq<(DeviceId, Link, Confidence)>, k: int)
    requires
        0 <= k < all.len(),
        entries_justified(all, known, opts, r, k),
        entries_complete(all, known, opts, r, k),
        classify(all, known, opts, all[k].id) is None || exists|i: int| 0 <= i < r.len() && r[i].0 == all[k].id,
    ensures
        entries_justified(all, known, opts, r, k + 1),
        entries_complete(all, known, opts, r, k + 1),
{
    reveal(entries_justified);
    reveal(entries_complete);
    assert forall|i: int|
        0 <= i < r.len() implies (exists|m: int| 0 <= m < k + 1 && all[m].id == (#[trigger] r[i]).0)
            && classify(all, known, opts, r[i].0) == Some((r[i].1, r[i].2)) by {
        let m = choose|m: int| 0 <= m < k && all[m].id == r[i].0;
        assert(0 <= m < k + 1);
    }
}

/// Which devices a scan should look at, and what is already believed of
/// them: each id present once, in ascending id order, so a picker does not
/// reshuffle itself between scans.
pub fn targets(all: &[CollectionInfo], spec: &ScanSpec) -> (r: Vec<(DeviceId, Link, Confidence)>)
    ensures
        ascending(r@),
        entries_justified(all@, spec.known@, *spec.opts, r@, all@.len() as int),
        entries_complete(all@, spec.known@, *spec.opts, r@, all@.len() as int),
{
    let mut r: Vec<(DeviceId, Link, Confidence)> = Vec::new();
    proof {
        reveal(entries_justified);
        reveal(entries_complete);
    }
    let mut k: usize = 0;
    while k < all.len()
        invariant
            k <= all@.len(),
            ascending(r@),
            entries_justified(all@, spec.known@, *spec.opts, r@, k as int),
            entries_complete(all@, spec.known@, *spec.opts, r@, k as int),
        decreases all@.len() - k,
    {
        let id = all[k].id;
        match classify_exec(all, spec, id) {
            Some((link, conf)) => {
                let mut pos: usize = 0;
                while pos < r.len() && id_before(r[pos].0, id)
                    invariant
                        pos <= r@.len(),
                        forall|j: int| 0 <= j < pos ==> id_key(r@[j].0) < id_key(id),
                    decreases r@.len() - pos,
                {
                    pos = pos + 1;
                }
                if pos < r.len() && r[pos].0 == id {
                    proof {
                        lemma_skip_keeps_entries(all@, spec.known@, *spec.opts, r@, k as int);
                    }
                } else {
                    proof {
                        lemma_insert_ascending(r@, pos as int, (id, link, conf));
                        lemma_insert_keeps_entries(all@, spec.known@, *spec.opts, r@, k as int, pos as int);
                    }
                    r.insert(pos, (id, link, conf));
                }
            },
            None => {
                proof {
                    lemma_skip_keeps_entries(all@, spec.known@, *spec.opts, r@, k as int);
                }
            },
        }
        k = k + 1;
    }
    r
}

} // verus!
