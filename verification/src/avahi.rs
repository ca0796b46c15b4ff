use crate::avahi_browse::{packet_views, MdnsPacket, MdnsPacketView, PacketParseError};
use crate::util::FindExecError;
use crate::ip::{ip_display, ip_to_chars, IpAddr};
use crate::numbers::{dec_chars_of, u16_to_dec_chars};
use crate::text::{chars_to_string, str_to_chars};
use vstd::prelude::*;
use vstd::rwlock::RwLock;
use vstd::string::*;

verus! {

/// Declares `url::Url`, the url crate's parsed-URL type, as an opaque type
/// that fields and signatures here may carry.
#[verifier::external_type_specification]
#[verifier::external_body]
pub struct ExUrl(url::Url);

/// Declares `url::ParseError`, what the url crate's parser returns on a
/// string it rejects.
#[verifier::external_type_specification]
#[verifier::external_body]
pub struct ExUrlParseError(url::ParseError);

/// Whether `url::Url::parse` accepts `s`.  Acceptance is a function of the
/// input string alone.
pub uninterp spec fn url_parse_ok(s: Seq<char>) -> bool;

/// Relies on `url::Url::parse`: it is deterministic in its input, returning
/// `Ok` exactly on the strings it accepts as absolute URLs.
#[verifier::external_body]
fn parse_url(s: &str) -> (r: Result<url::Url, url::ParseError>)
    ensures
        r is Ok <==> url_parse_ok(s@),
{
    url::Url::parse(s)
}

/// Relies on `url::Url`'s derived `Clone`: the copy equals the original.
pub assume_specification[ <url::Url as Clone>::clone ](u: &url::Url) -> (r: url::Url)
    ensures
        r == *u,
;

/// Relies on `url::Url::as_str`: the URL's serialization.  The URL value is
/// opaque here, so nothing is stated of the text.
#[verifier::external_body]
fn url_to_string(u: &url::Url) -> String {
    u.as_str().to_owned()
}

/// Why a resolved announcement could not be turned into a device.
#[derive(Debug)]
pub enum ResolveError {
    /// The URL built from the announced address and port was rejected.
    UrlParse(url::ParseError),
}

/// The text this library hands to the URL parser for a resolved service:
/// `http://`, the address, a colon, and the port in decimal.
pub open spec fn device_url_text(ip: IpAddr, port: u16) -> Seq<char> {
    "http://"@ + ip_display(ip) + seq![':'] + dec_chars_of(port as nat)
}

/// A discovered key light: a name and the URL to control it at.  Identity is
/// by name alone: a light may flap between address families across
/// re-resolutions while remaining the same device.
#[derive(Debug, Clone)]
pub struct Device {
    /// The device's name: the announcement's decoded hostname.
    pub name: String,
    /// Where the device's interface is served.
    pub url: url::Url,
}

impl PartialEq for Device {
    fn eq(&self, other: &Self) -> (r: bool) {
        self.name == other.name
    }
}

impl Eq for Device {}

impl vstd::std_specs::cmp::PartialEqSpecImpl for Device {
    open spec fn obeys_eq_spec() -> bool {
        true
    }

    open spec fn eq_spec(&self, other: &Device) -> bool {
        self.name@ == other.name@
    }
}

impl Device {
    /// The name and URL in one line, for listings.
    pub fn display_string(&self) -> String {
        let mut s = self.name.clone();
        s.append(" => ");
        let u = url_to_string(&self.url);
        s.append(u.as_str());
        s
    }

    /// A device from an announcement: only a `Resolved` announcement yields
    /// one, named by the announcement's hostname, at the URL built from the
    /// announced address and port.  Fails exactly when the URL parser
    /// rejects that text, which live lights reach with a bare v6 address.
    pub fn from_packet(packet: MdnsPacket) -> (r: Result<Option<Device>, ResolveError>)
        ensures
            (packet@ matches MdnsPacketView::New(_) || packet@ matches MdnsPacketView::Exited(_))
                ==> (r matches Ok(d) && d is None),
            packet@ matches MdnsPacketView::Resolved { base, service } ==> {
                &&& r is Ok <==> url_parse_ok(device_url_text(service.ip, service.port))
                &&& (r matches Ok(d) ==> (d matches Some(dev) && dev.name@ == base.hostname))
            },
    {
        Device::from_packet_ref(&packet)
    }

    /// As `from_packet`, reading the announcement through a reference.
    fn from_packet_ref(packet: &MdnsPacket) -> (r: Result<Option<Device>, ResolveError>)
        ensures
            (packet@ matches MdnsPacketView::New(_) || packet@ matches MdnsPacketView::Exited(_))
                ==> (r matches Ok(d) && d is None),
            packet@ matches MdnsPacketView::Resolved { base, service } ==> {
                &&& r is Ok <==> url_parse_ok(device_url_text(service.ip, service.port))
                &&& (r matches Ok(d) ==> (d matches Some(dev) && dev.name@ == base.hostname))
            },
    {
        match packet {
            MdnsPacket::New(_) => Ok(None),
            MdnsPacket::Exited(_) => Ok(None),
            MdnsPacket::Resolved { base, service } => {
                let mut uc = str_to_chars("http://");
                let mut t = ip_to_chars(&service.ip);
                uc.append(&mut t);
                uc.push(':');
                let mut t = u16_to_dec_chars(service.port);
                uc.append(&mut t);
                let text = chars_to_string(&uc);
                proof {
                    assert(text@ =~= device_url_text(service@.ip, service@.port));
                }
                match parse_url(text.as_str()) {
                    Ok(u) => Ok(Some(Device { name: base.hostname.clone(), url: u })),
                    Err(e) => Err(ResolveError::UrlParse(e)),
                }
            },
        }
    }
}

/// The names of a run of devices, in order.
pub open spec fn device_names(ds: Seq<Device>) -> Seq<Seq<char>> {
    ds.map_values(|d: Device| d.name@)
}

/// No name occurs twice.
pub open spec fn unique_names(ns: Seq<Seq<char>>) -> bool {
    forall|i: int, j: int| 0 <= i < j < ns.len() ==> ns[i] != ns[j]
}

/// `n` occurs in `ns`.
pub open spec fn contains_name(ns: Seq<Seq<char>>, n: Seq<char>) -> bool {
    exists|i: int| 0 <= i < ns.len() && ns[i] == n
}

/// `ns` with the first occurrence of `n` taken out, if there is one.
pub open spec fn remove_first(ns: Seq<Seq<char>>, n: Seq<char>) -> Seq<Seq<char>>
    decreases ns.len(),
{
    if ns.len() == 0 {
        ns
    } else if ns[0] == n {
        ns.skip(1)
    } else {
        seq![ns[0]] + remove_first(ns.skip(1), n)
    }
}

/// `ds` with the first device named `n` taken out, if there is one.
pub open spec fn remove_first_device(ds: Seq<Device>, n: Seq<char>) -> Seq<Device>
    decreases ds.len(),
{
    if ds.len() == 0 {
        ds
    } else if ds[0].name@ == n {
        ds.skip(1)
    } else {
        seq![ds[0]] + remove_first_device(ds.skip(1), n)
    }
}

/// What one announcement does to the registry's name list: `New` changes
/// nothing; `Resolved` appends the hostname when it is new and its URL text
/// parses, and changes nothing otherwise; `Exited` removes the first device
/// of that hostname.
pub open spec fn apply_names(ns: Seq<Seq<char>>, p: MdnsPacketView) -> Seq<Seq<char>> {
    match p {
        MdnsPacketView::New(_) => ns,
        MdnsPacketView::Resolved { base, service } => {
            if !url_parse_ok(device_url_text(service.ip, service.port)) {
                ns
            } else if contains_name(ns, base.hostname) {
                ns
            } else {
                ns.push(base.hostname)
            }
        },
        MdnsPacketView::Exited(base) => remove_first(ns, base.hostname),
    }
}

/// Removing a name that is not there changes nothing.
pub proof fn lemma_remove_first_absent(ns: Seq<Seq<char>>, n: Seq<char>)
    requires
        !contains_name(ns, n),
    ensures
        remove_first(ns, n) == ns,
    decreases ns.len(),
{
    if ns.len() != 0 {
        assert(ns[0] != n);
        assert(!contains_name(ns.skip(1), n)) by {
            if contains_name(ns.skip(1), n) {
                let i = choose|i: int| 0 <= i < ns.skip(1).len() && ns.skip(1)[i] == n;
                assert(ns[i + 1] == n);
            }
        }
        lemma_remove_first_absent(ns.skip(1), n);
        assert(remove_first(ns, n) =~= ns);
    }
}

/// Removing a name takes out exactly its first occurrence.
pub proof fn lemma_remove_first_at(ns: Seq<Seq<char>>, n: Seq<char>, i: int)
    requires
        0 <= i < ns.len(),
        ns[i] == n,
        forall|j: int| 0 <= j < i ==> ns[j] != n,
    ensures
        remove_first(ns, n) == ns.take(i) + ns.skip(i + 1),
    decreases i,
{
    if i == 0 {
        assert(remove_first(ns, n) =~= ns.take(0) + ns.skip(1));
    } else {
        assert(ns[0] != n);
        assert(ns.skip(1)[i - 1] == n);
        assert(forall|j: int| 0 <= j < i - 1 ==> ns.skip(1)[j] != n);
        lemma_remove_first_at(ns.skip(1), n, i - 1);
        assert(ns.skip(1).take(i - 1) =~= ns.take(i).skip(1));
        assert(remove_first(ns, n) =~= ns.take(i) + ns.skip(i + 1));
    }
}

/// Whatever removal leaves was already there.
pub proof fn lemma_remove_first_membership(ns: Seq<Seq<char>>, n: Seq<char>)
    ensures
        forall|m: Seq<char>|
            contains_name(remove_first(ns, n), m) ==> contains_name(ns, m),
    decreases ns.len(),
{
    let r = remove_first(ns, n);
    if ns.len() == 0 {
    } else if ns[0] == n {
        assert forall|m: Seq<char>| contains_name(r, m) implies contains_name(ns, m) by {
            let i = choose|i: int| 0 <= i < r.len() && r[i] == m;
            assert(ns[i + 1] == m);
        }
    } else {
        lemma_remove_first_membership(ns.skip(1), n);
        assert forall|m: Seq<char>| contains_name(r, m) implies contains_name(ns, m) by {
            let i = choose|i: int| 0 <= i < r.len() && r[i] == m;
            if i == 0 {
                assert(ns[0] == m);
            } else {
                assert(remove_first(ns.skip(1), n)[i - 1] == m);
                assert(contains_name(remove_first(ns.skip(1), n), m));
                assert(contains_name(ns.skip(1), m));
                let j = choose|j: int| 0 <= j < ns.skip(1).len() && ns.skip(1)[j] == m;
                assert(ns[j + 1] == m);
            }
        }
    }
}

/// On a duplicate-free list, removal keeps it duplicate-free and leaves no
/// occurrence of the removed name behind.
pub proof fn lemma_unique_remove(ns: Seq<Seq<char>>, n: Seq<char>)
    requires
        unique_names(ns),
    ensures
        unique_names(remove_first(ns, n)),
        !contains_name(remove_first(ns, n), n),
    decreases ns.len(),
{
    let r = remove_first(ns, n);
    if ns.len() == 0 {
    } else if ns[0] == n {
        assert(r =~= ns.skip(1));
        assert(unique_names(ns.skip(1))) by {
            assert(forall|i: int, j: int|
                0 <= i < j < ns.skip(1).len() ==> ns.skip(1)[i] == ns[i + 1] && ns.skip(1)[j]
                    == ns[j + 1]);
        }
        assert(!contains_name(ns.skip(1), n)) by {
            if contains_name(ns.skip(1), n) {
                let i = choose|i: int| 0 <= i < ns.skip(1).len() && ns.skip(1)[i] == n;
                assert(ns[i + 1] == n && ns[0] == n);
            }
        }
    } else {
        assert(unique_names(ns.skip(1))) by {
            assert(forall|i: int, j: int|
                0 <= i < j < ns.skip(1).len() ==> ns.skip(1)[i] == ns[i + 1] && ns.skip(1)[j]
                    == ns[j + 1]);
        }
        lemma_unique_remove(ns.skip(1), n);
        lemma_remove_first_membership(ns.skip(1), n);
        let tail = remove_first(ns.skip(1), n);
        assert(!contains_name(r, n)) by {
            if contains_name(r, n) {
                let i = choose|i: int| 0 <= i < r.len() && r[i] == n;
                if i == 0 {
                    assert(ns[0] == n);
                } else {
                    assert(tail[i - 1] == n);
                    assert(contains_name(tail, n));
                }
            }
        }
        assert(unique_names(r)) by {
            assert forall|i: int, j: int| 0 <= i < j < r.len() implies r[i] != r[j] by {
                if i == 0 {
                    assert(r[0] == ns[0]);
                    assert(tail[j - 1] == r[j]);
                    assert(contains_name(tail, r[j]));
                    assert(contains_name(ns.skip(1), r[j]));
                    let k = choose|k: int| 0 <= k < ns.skip(1).len() && ns.skip(1)[k] == r[j];
                    assert(ns[k + 1] == r[j]);
                    if ns[0] == r[j] {
                        assert(ns[0] == ns[k + 1]);
                    }
                } else {
                    assert(r[i] == tail[i - 1] && r[j] == tail[j - 1]);
                }
            }
        }
    }
}

/// Removal commutes with reading off the names.
pub proof fn lemma_remove_device_names(ds: Seq<Device>, n: Seq<char>)
    ensures
        device_names(remove_first_device(ds, n)) == remove_first(device_names(ds), n),
    decreases ds.len(),
{
    let ns = device_names(ds);
    if ds.len() == 0 {
        assert(device_names(remove_first_device(ds, n)) =~= remove_first(ns, n));
    } else if ds[0].name@ == n {
        assert(ns[0] == n);
        assert(device_names(ds.skip(1)) =~= ns.skip(1));
    } else {
        assert(ns[0] != n);
        lemma_remove_device_names(ds.skip(1), n);
        assert(device_names(ds.skip(1)) =~= ns.skip(1));
        assert(device_names(remove_first_device(ds, n)) =~= seq![ns[0]] + device_names(
            remove_first_device(ds.skip(1), n),
        ));
    }
}

/// Removal takes out exactly the first device of that name.
pub proof fn lemma_remove_first_device_at(ds: Seq<Device>, n: Seq<char>, i: int)
    requires
        0 <= i < ds.len(),
        ds[i].name@ == n,
        forall|j: int| 0 <= j < i ==> ds[j].name@ != n,
    ensures
        remove_first_device(ds, n) == ds.take(i) + ds.skip(i + 1),
    decreases i,
{
    if i == 0 {
        assert(remove_first_device(ds, n) =~= ds.take(0) + ds.skip(1));
    } else {
        assert(ds.skip(1)[i - 1].name@ == n);
        assert(forall|j: int| 0 <= j < i - 1 ==> ds.skip(1)[j].name@ != n);
        lemma_remove_first_device_at(ds.skip(1), n, i - 1);
        assert(ds.skip(1).take(i - 1) =~= ds.take(i).skip(1));
        assert(remove_first_device(ds, n) =~= ds.take(i) + ds.skip(i + 1));
    }
}

/// Removing a name no device carries changes nothing.
pub proof fn lemma_remove_first_device_absent(ds: Seq<Device>, n: Seq<char>)
    requires
        !contains_name(device_names(ds), n),
    ensures
        remove_first_device(ds, n) == ds,
    decreases ds.len(),
{
    let ns = device_names(ds);
    if ds.len() != 0 {
        assert(ns[0] == ds[0].name@);
        assert(ds[0].name@ != n);
        assert(!contains_name(device_names(ds.skip(1)), n)) by {
            assert(device_names(ds.skip(1)) =~= ns.skip(1));
            if contains_name(ns.skip(1), n) {
                let i = choose|i: int| 0 <= i < ns.skip(1).len() && ns.skip(1)[i] == n;
                assert(ns[i + 1] == n);
            }
        }
        lemma_remove_first_device_absent(ds.skip(1), n);
        assert(remove_first_device(ds, n) =~= ds);
    }
}

/// The index of the first device named `name`, when there is one.
fn find_by_name(ds: &Vec<Device>, name: &String) -> (r: Option<usize>)
    ensures
        r matches Some(i) ==> (i < ds@.len() && ds@[i as int].name@ == name@ && forall|j: int|
            0 <= j < i ==> ds@[j].name@ != name@),
        r is None ==> !contains_name(device_names(ds@), name@),
{
    let mut i: usize = 0;
    while i < ds.len()
        invariant
            i <= ds@.len(),
            forall|j: int| 0 <= j < i ==> ds@[j].name@ != name@,
        decreases ds@.len() - i,
    {
        if name.eq(&ds[i].name) {
            return Some(i);
        }
        i += 1;
    }
    proof {
        let ns = device_names(ds@);
        if contains_name(ns, name@) {
            let k = choose|k: int| 0 <= k < ns.len() && ns[k] == name@;
            assert(ds@[k].name@ == name@);
        }
    }
    None
}

/// The in-memory registry of currently known devices, at most one per name.
#[derive(Debug)]
pub struct AvahiState {
    /// The devices currently known, in the order they were first seen.
    pub devices: Vec<Device>,
}

impl AvahiState {
    /// The registry invariant: no two devices share a name.
    pub open spec fn wf(self) -> bool {
        unique_names(device_names(self.devices@))
    }

    /// Applies one announcement: `New` is informational and changes nothing;
    /// `Resolved` appends a device under the announced hostname unless one of
    /// that name is already present; `Exited` removes the device of that
    /// hostname, if any.  Fails exactly when a `Resolved` announcement's URL
    /// text is rejected, and then changes nothing.
    pub fn process_packet(&mut self, packet: MdnsPacket) -> (r: Result<(), ResolveError>)
        ensures
            device_names(final(self).devices@) == apply_names(
                device_names(old(self).devices@),
                packet@,
            ),
            old(self).wf() ==> final(self).wf(),
            r is Err <==> (packet@ matches MdnsPacketView::Resolved { base, service }
                && !url_parse_ok(device_url_text(service.ip, service.port))),
            r is Err ==> final(self).devices@ == old(self).devices@,
            packet@ matches MdnsPacketView::New(_) ==> final(self).devices@ == old(self).devices@,
            packet@ matches MdnsPacketView::Exited(base) ==> final(self).devices@
                == remove_first_device(old(self).devices@, base.hostname),
            packet@ matches MdnsPacketView::Resolved { base, service } ==> ((url_parse_ok(
                device_url_text(service.ip, service.port),
            ) && contains_name(device_names(old(self).devices@), base.hostname))
                ==> final(self).devices@ == old(self).devices@),
            packet@ matches MdnsPacketView::Resolved { base, service } ==> ((url_parse_ok(
                device_url_text(service.ip, service.port),
            ) && !contains_name(device_names(old(self).devices@), base.hostname)) ==> (
            final(self).devices@.len() == old(self).devices@.len() + 1
                && final(self).devices@.take(old(self).devices@.len() as int) == old(self).devices@
                && final(self).devices@.last().name@ == base.hostname)),
    {
        let ghost old_devices = self.devices@;
        let ghost old_names = device_names(self.devices@);
        match &packet {
            MdnsPacket::New(_) => Ok(()),
            MdnsPacket::Exited(base) => {
                let ghost h = base@.hostname;
                match find_by_name(&self.devices, &base.hostname) {
                    Some(i) => {
                        proof {
                            assert(device_names(old_devices)[i as int] == h);
                            assert(forall|j: int|
                                0 <= j < i ==> device_names(old_devices)[j] != h);
                            lemma_remove_first_device_at(old_devices, h, i as int);
                            lemma_remove_first_at(old_names, h, i as int);
                        }
                        self.devices.remove(i);
                        proof {
                            assert(self.devices@ =~= old_devices.take(i as int) + old_devices.skip(
                                i as int + 1,
                            ));
                            lemma_remove_device_names(old_devices, h);
                            if unique_names(old_names) {
                                lemma_unique_remove(old_names, h);
                            }
                        }
                        Ok(())
                    },
                    None => {
                        proof {
                            lemma_remove_first_device_absent(old_devices, h);
                            lemma_remove_first_absent(old_names, h);
                        }
                        Ok(())
                    },
                }
            },
            MdnsPacket::Resolved { .. } => {
                let ghost pv = packet@;
                match Device::from_packet(packet) {
                    Err(e) => Err(e),
                    Ok(opt) => {
                        let new_device = match opt {
                            Some(d) => d,
                            None => unreached(),
                        };
                        let ghost h = new_device.name@;
                        match find_by_name(&self.devices, &new_device.name) {
                            Some(i) => {
                                proof {
                                    assert(device_names(old_devices)[i as int] == h);
                                    assert(contains_name(old_names, h));
                                }
                                Ok(())
                            },
                            None => {
                                self.devices.push(new_device);
                                proof {
                                    assert(device_names(self.devices@) =~= old_names.push(h));
                                    if unique_names(old_names) {
                                        assert(unique_names(old_names.push(h))) by {
                                            assert forall|a: int, b: int|
                                                0 <= a < b < old_names.push(h).len() implies
                                                old_names.push(h)[a] != old_names.push(h)[b] by {
                                                if b == old_names.len() {
                                                    assert(old_names.push(h)[a] == old_names[a]);
                                                    if old_names[a] == h {
                                                        assert(contains_name(old_names, h));
                                                    }
                                                }
                                            }
                                        }
                                    }
                                }
                                Ok(())
                            },
                        }
                    },
                }
            },
        }
    }
}

/// The hostnames of the resolved packets, in order and with repetitions,
/// when every resolved packet's URL text parses; nothing when one is
/// rejected.
pub open spec fn spec_snapshot_names(ps: Seq<MdnsPacketView>) -> Option<Seq<Seq<char>>>
    decreases ps.len(),
{
    if ps.len() == 0 {
        Some(Seq::empty())
    } else {
        let rest = spec_snapshot_names(ps.skip(1));
        match ps[0] {
            MdnsPacketView::New(_) => rest,
            MdnsPacketView::Exited(_) => rest,
            MdnsPacketView::Resolved { base, service } => {
                if url_parse_ok(device_url_text(service.ip, service.port)) {
                    match rest {
                        None => None,
                        Some(ns) => Some(seq![base.hostname] + ns),
                    }
                } else {
                    None
                }
            },
        }
    }
}

/// `ns` from position `i` on, keeping only each name's first occurrence in
/// the whole of `ns`.
pub open spec fn dedup_from(ns: Seq<Seq<char>>, i: int) -> Seq<Seq<char>>
    decreases ns.len() - i,
{
    if i < 0 || i >= ns.len() {
        Seq::empty()
    } else if contains_name(ns.take(i), ns[i]) {
        dedup_from(ns, i + 1)
    } else {
        seq![ns[i]] + dedup_from(ns, i + 1)
    }
}

/// `ns` with every repetition dropped, keeping first occurrences in order.
pub open spec fn dedup_first(ns: Seq<Seq<char>>) -> Seq<Seq<char>> {
    dedup_from(ns, 0)
}

/// Appending one name extends the deduplication by that name exactly when it
/// is new.
pub proof fn lemma_dedup_push(ns: Seq<Seq<char>>, i: int, h: Seq<char>)
    requires
        0 <= i <= ns.len(),
    ensures
        dedup_from(ns.push(h), i) == dedup_from(ns, i) + (if contains_name(ns, h) {
            Seq::<Seq<char>>::empty()
        } else {
            seq![h]
        }),
    decreases ns.len() - i,
{
    let tail = if contains_name(ns, h) {
        Seq::<Seq<char>>::empty()
    } else {
        seq![h]
    };
    if i == ns.len() {
        assert(ns.push(h).take(i) =~= ns);
        assert(ns.push(h)[i] == h);
        assert(dedup_from(ns.push(h), i + 1) =~= Seq::<Seq<char>>::empty());
        assert(dedup_from(ns, i) =~= Seq::<Seq<char>>::empty());
        assert(dedup_from(ns.push(h), i) =~= tail);
    } else {
        assert(ns.push(h)[i] == ns[i]);
        assert(ns.push(h).take(i) =~= ns.take(i));
        lemma_dedup_push(ns, i + 1, h);
        assert(dedup_from(ns.push(h), i) =~= dedup_from(ns, i) + tail);
    }
}

/// Resolves a decoded batch into a snapshot of devices: every resolved
/// packet yields a device, other packets none, and repeated names keep only
/// their first device.  Fails, returning no partial list, as soon as one
/// resolved packet's URL text is rejected.
pub fn resolve_devices(packets: Vec<MdnsPacket>) -> (r: Result<Vec<Device>, ResolveError>)
    ensures
        r is Err <==> spec_snapshot_names(packet_views(packets@)) is None,
        r matches Ok(ds) ==> (spec_snapshot_names(packet_views(packets@)) matches Some(raw)
            && device_names(ds@) == dedup_first(raw) && unique_names(device_names(ds@))),
{
    let ghost orig = packet_views(packets@);
    let mut out: Vec<Device> = Vec::new();
    let mut i: usize = 0;
    let ghost mut raw: Seq<Seq<char>> = Seq::empty();
    proof {
        assert(orig.skip(0) =~= orig);
        assert(device_names(out@) =~= Seq::<Seq<char>>::empty());
        assert(dedup_from(raw, 0) =~= Seq::<Seq<char>>::empty());
        match spec_snapshot_names(orig) {
            Some(ns) => {
                assert(raw + ns =~= ns);
            },
            None => {},
        }
    }
    while i < packets.len()
        invariant
            i <= orig.len(),
            orig == packet_views(packets@),
            spec_snapshot_names(orig) == (match spec_snapshot_names(orig.skip(i as int)) {
                None => None::<Seq<Seq<char>>>,
                Some(ns) => Some(raw + ns),
            }),
            device_names(out@) == dedup_first(raw),
            forall|x: Seq<char>|
                contains_name(device_names(out@), x) <==> contains_name(raw, x),
            unique_names(device_names(out@)),
        decreases orig.len() - i,
    {
        let ghost rest = orig.skip(i as int);
        let p = &packets[i];
        proof {
            assert(rest[0] == p@);
            assert(rest.skip(1) =~= orig.skip(i as int + 1));
        }
        match Device::from_packet_ref(p) {
            Err(e) => {
                proof {
                    assert(spec_snapshot_names(rest) is None);
                    assert(spec_snapshot_names(orig) is None);
                }
                return Err(e);
            },
            Ok(None) => {
                proof {
                    assert(spec_snapshot_names(rest) == spec_snapshot_names(rest.skip(1)));
                }
            },
            Ok(Some(d)) => {
                let ghost h = d.name@;
                let ghost old_raw = raw;
                let ghost old_names = device_names(out@);
                proof {
                    assert(rest[0] matches MdnsPacketView::Resolved { base, service }
                        && url_parse_ok(device_url_text(service.ip, service.port))
                        && base.hostname == h);
                    match spec_snapshot_names(rest.skip(1)) {
                        None => {
                            assert(spec_snapshot_names(rest) is None);
                        },
                        Some(ns) => {
                            assert(spec_snapshot_names(rest) == Some(seq![h] + ns));
                            assert(old_raw + (seq![h] + ns) =~= old_raw.push(h) + ns);
                        },
                    }
                    raw = old_raw.push(h);
                    lemma_dedup_push(old_raw, 0, h);
                }
                match find_by_name(&out, &d.name) {
                    Some(j) => {
                        proof {
                            assert(device_names(out@)[j as int] == h);
                            assert(contains_name(device_names(out@), h));
                            assert(contains_name(old_raw, h));
                            assert(dedup_first(old_raw.push(h)) =~= dedup_first(old_raw));
                            assert forall|x: Seq<char>|
                                contains_name(device_names(out@), x) <==> contains_name(
                                raw,
                                x,
                            ) by {
                                if contains_name(raw, x) {
                                    let k = choose|k: int|
                                        0 <= k < raw.len() && raw[k] == x;
                                    if k < old_raw.len() {
                                        assert(old_raw[k] == x);
                                        assert(contains_name(old_raw, x));
                                    } else {
                                        assert(x == h);
                                        assert(contains_name(device_names(out@), h));
                                    }
                                }
                                if contains_name(device_names(out@), x) {
                                    assert(contains_name(old_raw, x));
                                    let m = choose|m: int|
                                        0 <= m < old_raw.len() && old_raw[m] == x;
                                    assert(raw[m] == x);
                                    assert(contains_name(raw, x));
                                }
                            }
                        }
                    },
                    None => {
                        proof {
                            assert(!contains_name(old_raw, h));
                        }
                        out.push(d);
                        proof {
                            assert(device_names(out@) =~= old_names.push(h));
                            assert(device_names(out@) =~= dedup_first(old_raw) + seq![h]);
                            assert(dedup_first(raw) =~= dedup_first(old_raw) + seq![h]);
                            assert forall|x: Seq<char>|
                                contains_name(device_names(out@), x) <==> contains_name(
                                raw,
                                x,
                            ) by {
                                if contains_name(raw, x) {
                                    let k = choose|k: int|
                                        0 <= k < raw.len() && raw[k] == x;
                                    if k < old_raw.len() {
                                        assert(contains_name(old_raw, x));
                                        assert(contains_name(old_names, x));
                                        let m = choose|m: int|
                                            0 <= m < old_names.len() && old_names[m] == x;
                                        assert(device_names(out@)[m] == x);
                                    } else {
                                        assert(x == h);
                                        assert(device_names(out@).last() == h);
                                    }
                                }
                                if contains_name(device_names(out@), x) {
                                    let k = choose|k: int|
                                        0 <= k < device_names(out@).len() && device_names(
                                            out@,
                                        )[k] == x;
                                    if k < old_names.len() {
                                        assert(old_names[k] == x);
                                        assert(contains_name(old_names, x));
                                        assert(contains_name(old_raw, x));
                                        let m = choose|m: int|
                                            0 <= m < old_raw.len() && old_raw[m] == x;
                                        assert(raw[m] == x);
                                    } else {
                                        assert(x == h);
                                        assert(raw.last() == h);
                                    }
                                }
                            }
                            assert(unique_names(device_names(out@))) by {
                                assert forall|a: int, b: int|
                                    0 <= a < b < device_names(out@).len() implies device_names(
                                    out@,
                                )[a] != device_names(out@)[b] by {
                                    if b == old_names.len() {
                                        assert(device_names(out@)[a] == old_names[a]);
                                        if old_names[a] == h {
                                            assert(contains_name(old_names, h));
                                            assert(contains_name(old_raw, h));
                                        }
                                    }
                                }
                            }
                        }
                    },
                }
            },
        }
        i += 1;
    }
    proof {
        assert(orig.skip(i as int) =~= Seq::<MdnsPacketView>::empty());
        assert(spec_snapshot_names(orig.skip(i as int)) == Some(Seq::<Seq<char>>::empty()));
        match spec_snapshot_names(orig) {
            Some(ns) => {
                assert(ns =~= raw + Seq::<Seq<char>>::empty());
                assert(ns =~= raw);
            },
            None => {},
        }
    }
    Ok(out)
}

/// Every announcement leaves a duplicate-free registry duplicate-free: the
/// registry invariant is preserved by every transition.
pub proof fn lemma_apply_preserves_unique(ns: Seq<Seq<char>>, p: MdnsPacketView)
    requires
        unique_names(ns),
    ensures
        unique_names(apply_names(ns, p)),
{
    match p {
        MdnsPacketView::New(_) => {},
        MdnsPacketView::Resolved { base, service } => {
            let h = base.hostname;
            if url_parse_ok(device_url_text(service.ip, service.port)) && !contains_name(
                ns,
                h,
            ) {
                assert forall|a: int, b: int| 0 <= a < b < ns.push(h).len() implies ns.push(
                    h,
                )[a] != ns.push(h)[b] by {
                    if b == ns.len() {
                        assert(ns.push(h)[a] == ns[a]);
                        if ns[a] == h {
                            assert(contains_name(ns, h));
                        }
                    }
                }
            }
        },
        MdnsPacketView::Exited(base) => {
            lemma_unique_remove(ns, base.hostname);
        },
    }
}

/// A resolution that yields a device leaves its name present: together with
/// uniqueness, the registry then holds exactly one device of that name.
pub proof fn lemma_resolved_name_present(ns: Seq<Seq<char>>, p: MdnsPacketView)
    requires
        p matches MdnsPacketView::Resolved { base, service } && url_parse_ok(
            device_url_text(service.ip, service.port),
        ),
    ensures
        p matches MdnsPacketView::Resolved { base, service } ==> contains_name(
            apply_names(ns, p),
            base.hostname,
        ),
{
    if let MdnsPacketView::Resolved { base, service } = p {
        let h = base.hostname;
        if !contains_name(ns, h) {
            assert(ns.push(h)[ns.len() as int] == h);
        }
    }
}

/// Applying the same announcement twice leaves what one application leaves:
/// a repeated resolution adds nothing, and a repeated exit finds nothing
/// more to remove.
pub proof fn lemma_apply_idempotent(ns: Seq<Seq<char>>, p: MdnsPacketView)
    requires
        unique_names(ns),
    ensures
        apply_names(apply_names(ns, p), p) == apply_names(ns, p),
{
    match p {
        MdnsPacketView::New(_) => {},
        MdnsPacketView::Resolved { base, service } => {
            if url_parse_ok(device_url_text(service.ip, service.port)) && !contains_name(
                ns,
                base.hostname,
            ) {
                assert(ns.push(base.hostname)[ns.len() as int] == base.hostname);
                assert(contains_name(ns.push(base.hostname), base.hostname));
            }
        },
        MdnsPacketView::Exited(base) => {
            lemma_unique_remove(ns, base.hostname);
            lemma_remove_first_absent(remove_first(ns, base.hostname), base.hostname);
        },
    }
}

/// What can go wrong while discovering devices, one variant per failure
/// source: the helper that looks for the tool, the tool being absent, the
/// tool's process, its output not being text, a line not decoding, and a
/// resolved line not yielding a device.
#[derive(Debug)]
pub enum DiscoverError {
    FindExec(FindExecError),
    AvahiBrowseNotInstalled,
    AvahiBrowseError(String),
    OutputParse(String),
    Parse(PacketParseError),
    Resolve(ResolveError),
}

/// The line decodes, and where it announces a resolution its URL text is
/// one the URL parser accepts: exactly then does applying the line to a
/// registry change nothing or add or remove a device, rather than fail.
pub open spec fn line_applies(line: Seq<char>) -> bool {
    match crate::avahi_browse::spec_parse_packet(line) {
        Err(_) => false,
        Ok(pv) => match pv {
            MdnsPacketView::Resolved { base, service } => url_parse_ok(
                device_url_text(service.ip, service.port),
            ),
            MdnsPacketView::New(_) => true,
            MdnsPacketView::Exited(_) => true,
        },
    }
}

/// A registry behind a verified reader/writer lock.  Writers apply one
/// announcement per critical section, so any reader sees the registry either
/// before or after a whole transition, never between, and always with its
/// names unique.
pub struct SharedAvahiState {
    lock: RwLock<AvahiState, spec_fn(AvahiState) -> bool>,
}

impl SharedAvahiState {
    #[verifier::type_invariant]
    spec fn lock_inv(self) -> bool {
        self.lock.pred() == (|s: AvahiState| s.wf())
    }

    /// A shared registry seeded with `devices`; a later duplicate of an
    /// earlier name is dropped, so the registry invariant holds from the
    /// start.
    pub fn new(devices: Vec<Device>) -> SharedAvahiState {
        let mut seeded: Vec<Device> = Vec::new();
        let mut i: usize = 0;
        while i < devices.len()
            invariant
                unique_names(device_names(seeded@)),
            decreases devices@.len() - i,
        {
            let ghost old_names = device_names(seeded@);
            let d = Device { name: devices[i].name.clone(), url: devices[i].url.clone() };
            let ghost h = d.name@;
            match find_by_name(&seeded, &d.name) {
                Some(_) => {},
                None => {
                    seeded.push(d);
                    proof {
                        assert(device_names(seeded@) =~= old_names.push(h));
                        assert forall|a: int, b: int|
                            0 <= a < b < old_names.push(h).len() implies old_names.push(h)[a]
                            != old_names.push(h)[b] by {
                            if b == old_names.len() {
                                assert(old_names.push(h)[a] == old_names[a]);
                                if old_names[a] == h {
                                    assert(contains_name(old_names, h));
                                }
                            }
                        }
                    }
                },
            }
            i += 1;
        }
        let state = AvahiState { devices: seeded };
        SharedAvahiState { lock: RwLock::new(state, Ghost(|s: AvahiState| s.wf())) }
    }

    /// Applies one announcement under the write lock, holding it for that
    /// one transition only.  Fails as `process_packet` does, whatever the
    /// registry holds at that moment; the registry invariant holds
    /// afterwards either way.
    pub fn apply(&self, packet: MdnsPacket) -> (r: Result<(), ResolveError>)
        ensures
            r is Err <==> (packet@ matches MdnsPacketView::Resolved { base, service }
                && !url_parse_ok(device_url_text(service.ip, service.port))),
    {
        proof {
            use_type_invariant(self);
        }
        let (mut state, handle) = self.lock.acquire_write();
        let r = state.process_packet(packet);
        handle.release_write(state);
        r
    }

    /// Decodes one line and applies it under the write lock; the error says
    /// whether decoding or resolution failed.
    pub fn apply_line(&self, line: String) -> (r: Result<(), DiscoverError>)
        ensures
            r is Ok <==> line_applies(line@),
            r matches Err(e) ==> (e matches DiscoverError::Parse(pe) && Err::<
                crate::avahi_browse::MdnsPacketView,
                crate::avahi_browse::PacketParseErrorView,
            >(pe@) == crate::avahi_browse::spec_parse_packet(line@)) || (e
                matches DiscoverError::Resolve(_)
                && crate::avahi_browse::spec_parse_packet(line@) is Ok),
    {
        match MdnsPacket::try_from(line) {
            Err(e) => Err(DiscoverError::Parse(e)),
            Ok(p) => match self.apply(p) {
                Ok(()) => Ok(()),
                Err(e) => Err(DiscoverError::Resolve(e)),
            },
        }
    }

    /// Copies the device list out under the read lock.  Whatever moment the
    /// read falls on, the list satisfies the registry invariant: names are
    /// unique, and no half-applied transition can be seen.
    pub fn devices(&self) -> (r: Vec<Device>)
        ensures
            unique_names(device_names(r@)),
    {
        proof {
            use_type_invariant(self);
        }
        let read_handle = self.lock.acquire_read();
        let state = read_handle.borrow();
        let mut out: Vec<Device> = Vec::new();
        let mut i: usize = 0;
        let ghost ds = state.devices@;
        while i < state.devices.len()
            invariant
                i <= ds.len(),
                state.devices@ == ds,
                out@.len() == i,
                forall|k: int| 0 <= k < i ==> #[trigger] out@[k].name@ == ds[k].name@,
            decreases ds.len() - i,
        {
            let d = Device {
                name: state.devices[i].name.clone(),
                url: state.devices[i].url.clone(),
            };
            out.push(d);
            i += 1;
        }
        read_handle.release_read();
        proof {
            assert(device_names(out@) =~= device_names(ds));
            assert(unique_names(device_names(ds)));
        }
        out
    }
}

} // verus!
