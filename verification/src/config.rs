//! The configuration: an INI document whose `Peer` sections name, for each
//! peer, its tunnel address and its public key.
//!
//! Reading the configuration takes two steps, because only the host can tell
//! which address a text denotes. First the document is read and every `Peer`
//! section is reduced to the texts that matter. Then, given what the address
//! texts denote, the static peer map is built.

use crate::address::{unmap_addr, unmapped, IpAddress};
use crate::peers::StaticPeerMap;
use crate::text::{chars_of, lowercase, lowercased, split, split_at, split_is_inverse_of_join, string_of, trim, trimmed, utf8_text};
use vstd::prelude::*;
use vstd::string::*;
use vstd::utf8::{decode_utf8, valid_utf8};

verus! {

/// The error with which the INI parser refuses a document.
#[verifier::external_type_specification]
#[verifier::external_body]
pub struct ExParseError(ini::ParseError);

/// A key of an INI section with its value.
#[derive(Debug, PartialEq, Eq)]
pub struct Property {
    pub key: String,
    pub value: String,
}

/// A section of an INI document: its name, which only the section before the
/// first header lacks, and its properties in the order of the document.
#[derive(Debug, PartialEq, Eq)]
pub struct Section {
    pub name: Option<String>,
    pub properties: Vec<Property>,
}

/// The sections of the INI document `text`, in the order of the document,
/// each with its name and its properties, or `None` if `text` is no INI
/// document.
pub uninterp spec fn ini_document(text: Seq<char>) -> Option<
    Seq<(Option<Seq<char>>, Seq<(Seq<char>, Seq<char>)>)>,
>;

/// The characters of an optional string.
pub open spec fn optional_text(s: Option<String>) -> Option<Seq<char>> {
    match s {
        Some(s) => Some(s@),
        None => None,
    }
}

/// The keys and values of `v` as characters.
pub open spec fn property_views(v: Seq<Property>) -> Seq<(Seq<char>, Seq<char>)> {
    v.map_values(|p: Property| (p.key@, p.value@))
}

/// The names and properties of `v` as characters.
pub open spec fn section_views(v: Seq<Section>) -> Seq<
    (Option<Seq<char>>, Seq<(Seq<char>, Seq<char>)>),
> {
    v.map_values(|s: Section| (optional_text(s.name), property_views(s.properties@)))
}

/// Calls `Ini::load_from_str` and copies out what `Ini::iter` and
/// `Properties::iter` yield: the sections in the order of the document, each
/// with its name and its properties in their order. The parser's result
/// depends on the text alone; `ini_document` is this crate's name for it.
#[verifier::external_body]
fn load_sections(text: &str) -> (r: Result<Vec<Section>, ini::ParseError>)
    ensures
        match r {
            Ok(v) => ini_document(text@) == Some(section_views(v@)),
            Err(_) => ini_document(text@) is None,
        },
{
    let doc = ini::Ini::load_from_str(text)?;
    Ok(
        doc.iter().map(
            |(name, props)|
                Section {
                    name: name.map(|n| n.to_owned()),
                    properties: props.iter().map(
                        |(k, v)| Property { key: k.to_owned(), value: v.to_owned() },
                    ).collect(),
                },
        ).collect(),
    )
}

/// Calls the parser error's `to_string`: the place and the reason of the
/// refusal as text. Nothing is claimed of it.
#[verifier::external_body]
fn describe(e: &ini::ParseError) -> String {
    e.to_string()
}

/// Why the configuration cannot be used.
#[derive(Debug, PartialEq, Eq)]
pub enum ConfigError {
    /// The file is not well-formed UTF-8.
    NotUtf8,
    /// The text is no INI document. The parser's words are attached.
    Malformed(String),
    /// No section gives both an address and a key.
    NoPeers,
}

/// What follows the address in the first element of `AllowedIPs`.
#[derive(Clone, Copy, Debug, PartialEq, Eq, Structural)]
pub enum Prefix {
    /// Nothing: the element is a bare address.
    Absent,
    /// `/32`, the length of a single IPv4 host.
    Host4,
    /// `/128`, the length of a single IPv6 host.
    Host6,
    /// Anything else.
    Other,
}

/// The first element of an `AllowedIPs` value: the text of its address and
/// the kind of its prefix.
#[derive(Debug, PartialEq, Eq)]
pub struct HostSpec {
    pub address: String,
    pub prefix: Prefix,
}

pub struct HostSpecView {
    pub address: Seq<char>,
    pub prefix: Prefix,
}

impl View for HostSpec {
    type V = HostSpecView;

    open spec fn view(&self) -> HostSpecView {
        HostSpecView { address: self.address@, prefix: self.prefix }
    }
}

/// What a `Peer` section says: the first elements of its `AllowedIPs`
/// values, in order, and the value of its last `PublicKey`.
#[derive(Debug, PartialEq, Eq)]
pub struct PeerEntry {
    pub hosts: Vec<HostSpec>,
    pub public_key: Option<String>,
}

pub struct PeerEntryView {
    pub hosts: Seq<HostSpecView>,
    pub public_key: Option<Seq<char>>,
}

impl View for PeerEntry {
    type V = PeerEntryView;

    open spec fn view(&self) -> PeerEntryView {
        PeerEntryView { hosts: host_views(self.hosts@), public_key: optional_text(self.public_key) }
    }
}

pub open spec fn host_views(v: Seq<HostSpec>) -> Seq<HostSpecView> {
    v.map_values(|h: HostSpec| h@)
}

pub open spec fn entry_views(v: Seq<PeerEntry>) -> Seq<PeerEntryView> {
    v.map_values(|e: PeerEntry| e@)
}

/// The kind of prefix that the pieces of an element, split at `/`, show:
/// none if there is one piece, a host length if there are two and the second
/// is `32` or `128`.
pub open spec fn prefix_of(parts: Seq<Seq<char>>) -> Prefix {
    if parts.len() == 1 {
        Prefix::Absent
    } else if parts.len() == 2 && parts[1] == seq!['3', '2'] {
        Prefix::Host4
    } else if parts.len() == 2 && parts[1] == seq!['1', '2', '8'] {
        Prefix::Host6
    } else {
        Prefix::Other
    }
}

/// The host that the `AllowedIPs` value `value` names first: its first
/// element by commas, without the white space around it, split at `/`.
pub open spec fn host_of(value: Seq<char>) -> HostSpecView {
    let parts = split(trimmed(split(value, ',')[0]), '/');
    HostSpecView { address: parts[0], prefix: prefix_of(parts) }
}

/// The address that stands for a peer, given the kind of prefix and what the
/// address text denotes: the normal form of the address if its text is bare
/// or has the host length of its family, and none otherwise.
pub open spec fn chosen(prefix: Prefix, address: Option<IpAddress>) -> Option<IpAddress> {
    match address {
        Some(ip) => {
            if prefix == Prefix::Absent || (ip is V4 && prefix == Prefix::Host4) || (ip is V6
                && prefix == Prefix::Host6) {
                Some(unmapped(ip))
            } else {
                None
            }
        },
        None => None,
    }
}

/// What a property of a `Peer` section is, by its key.
#[derive(Clone, Copy, Debug, PartialEq, Eq, Structural)]
pub enum Field {
    /// `AllowedIPs`: the addresses routed to the peer.
    AllowedIps,
    /// `PublicKey`: the key of the peer.
    PublicKey,
    /// Any other key.
    Other,
}

/// The field that a key names, the key given in lower case.
pub open spec fn field_named(lower: Seq<char>) -> Field {
    if lower == "allowedips"@ {
        Field::AllowedIps
    } else if lower == "publickey"@ {
        Field::PublicKey
    } else {
        Field::Other
    }
}

/// Whether a section with the name `name` describes a peer: it has a name,
/// and the name is `peer` in any mix of cases.
pub open spec fn is_peer(name: Option<Seq<char>>) -> bool {
    name matches Some(n) && lowercased(n) == "peer"@
}

/// The hosts of the `AllowedIPs` properties among `props`, in order.
pub open spec fn hosts_of(props: Seq<(Seq<char>, Seq<char>)>) -> Seq<HostSpecView>
    decreases props.len(),
{
    if props.len() == 0 {
        Seq::empty()
    } else if field_named(lowercased(props.last().0)) == Field::AllowedIps {
        hosts_of(props.drop_last()).push(host_of(props.last().1))
    } else {
        hosts_of(props.drop_last())
    }
}

/// The value of the last `PublicKey` property among `props`.
pub open spec fn key_of(props: Seq<(Seq<char>, Seq<char>)>) -> Option<Seq<char>>
    decreases props.len(),
{
    if props.len() == 0 {
        None
    } else if field_named(lowercased(props.last().0)) == Field::PublicKey {
        Some(props.last().1)
    } else {
        key_of(props.drop_last())
    }
}

/// What the `Peer` sections among `doc` say, in order.
pub open spec fn entries_of(doc: Seq<(Option<Seq<char>>, Seq<(Seq<char>, Seq<char>)>)>) -> Seq<
    PeerEntryView,
>
    decreases doc.len(),
{
    if doc.len() == 0 {
        Seq::empty()
    } else if is_peer(doc.last().0) {
        entries_of(doc.drop_last()).push(
            PeerEntryView { hosts: hosts_of(doc.last().1), public_key: key_of(doc.last().1) },
        )
    } else {
        entries_of(doc.drop_last())
    }
}

/// The answer of the host for the host of index `i`, none if it gave fewer.
pub open spec fn answer(parsed: Seq<Option<IpAddress>>, i: int) -> Option<IpAddress> {
    if 0 <= i < parsed.len() {
        parsed[i]
    } else {
        None
    }
}

/// The address of the first host from index `i` on that stands for a peer.
pub open spec fn first_usable(hosts: Seq<HostSpecView>, parsed: Seq<Option<IpAddress>>, i: int) -> Option<
    IpAddress,
>
    decreases hosts.len() - i,
{
    if i < 0 || i >= hosts.len() {
        None
    } else if chosen(hosts[i].prefix, answer(parsed, i)) is Some {
        chosen(hosts[i].prefix, answer(parsed, i))
    } else {
        first_usable(hosts, parsed, i + 1)
    }
}

/// The address of the first usable host is in its normal form.
pub proof fn first_usable_is_normal(hosts: Seq<HostSpecView>, parsed: Seq<Option<IpAddress>>, i: int)
    ensures
        first_usable(hosts, parsed, i) matches Some(ip) ==> unmapped(ip) == ip,
    decreases hosts.len() - i,
{
    if 0 <= i < hosts.len() {
        match chosen(hosts[i].prefix, answer(parsed, i)) {
            Some(ip) => {
                crate::address::unmapped_is_idempotent(answer(parsed, i)->0);
            },
            None => {
                first_usable_is_normal(hosts, parsed, i + 1);
            },
        }
    }
}

/// The address and the key that a section binds, if it gives both: the
/// address of its first usable host and its public key.
pub open spec fn selected(entry: PeerEntryView, parsed: Seq<Option<IpAddress>>) -> Option<
    (IpAddress, Seq<char>),
> {
    match (first_usable(entry.hosts, parsed, 0), entry.public_key) {
        (Some(ip), Some(key)) => Some((ip, key)),
        _ => None,
    }
}

/// The answers of the host for the entry of index `i`, none if it gave fewer.
pub open spec fn answers(parsed: Seq<Seq<Option<IpAddress>>>, i: int) -> Seq<Option<IpAddress>> {
    if 0 <= i < parsed.len() {
        parsed[i]
    } else {
        Seq::empty()
    }
}

/// The peer map that the entries bind, a later entry replacing an earlier
/// one with the same address.
pub open spec fn bound(entries: Seq<PeerEntryView>, parsed: Seq<Seq<Option<IpAddress>>>) -> Map<
    IpAddress,
    Seq<char>,
>
    decreases entries.len(),
{
    if entries.len() == 0 {
        Map::empty()
    } else {
        let before = bound(entries.drop_last(), parsed);
        match selected(entries.last(), answers(parsed, entries.len() - 1)) {
            Some((ip, key)) => before.insert(ip, key),
            None => before,
        }
    }
}

pub open spec fn answer_rows(v: Seq<Vec<Option<IpAddress>>>) -> Seq<Seq<Option<IpAddress>>> {
    v.map_values(|r: Vec<Option<IpAddress>>| r@)
}

fn same_text(a: &String, b: &str) -> (r: bool)
    ensures
        r == (a@ == b@),
{
    *a == b.to_owned()
}

/// Tells the field that a key names, the key given in lower case.
pub fn field_of(lower: &str) -> (f: Field)
    ensures
        f == field_named(lower@),
{
    let lower = lower.to_owned();
    if same_text(&lower, "allowedips") {
        Field::AllowedIps
    } else if same_text(&lower, "publickey") {
        Field::PublicKey
    } else {
        Field::Other
    }
}

/// Tells whether a section name, given in lower case, is that of a peer.
pub fn names_peer(lower: &str) -> (b: bool)
    ensures
        b == (lower@ == "peer"@),
{
    let lower = lower.to_owned();
    same_text(&lower, "peer")
}

/// Reads the first element of an `AllowedIPs` value.
pub fn host_spec(value: &str) -> (h: HostSpec)
    ensures
        h@ == host_of(value@),
{
    let chars = chars_of(value);
    let elements = split_at(&chars, ',');
    proof {
        split_is_inverse_of_join(chars@, ',');
    }
    let first = trim(&elements[0]);
    let parts = split_at(&first, '/');
    proof {
        split_is_inverse_of_join(first@, '/');
    }
    let prefix = if parts.len() == 1 {
        Prefix::Absent
    } else if parts.len() == 2 && parts[1].len() == 2 && parts[1][0] == '3' && parts[1][1] == '2' {
        assert(parts[1]@ =~= seq!['3', '2']);
        Prefix::Host4
    } else if parts.len() == 2 && parts[1].len() == 3 && parts[1][0] == '1' && parts[1][1] == '2'
        && parts[1][2] == '8' {
        assert(parts[1]@ =~= seq!['1', '2', '8']);
        Prefix::Host6
    } else {
        proof {
            if parts.len() == 2 {
                assert(seq!['3', '2'].len() == 2 && seq!['3', '2'][0] == '3' && seq!['3', '2'][1]
                    == '2');
                assert(seq!['1', '2', '8'].len() == 3 && seq!['1', '2', '8'][0] == '1' && seq![
                    '1',
                    '2',
                    '8',
                ][1] == '2' && seq!['1', '2', '8'][2] == '8');
            }
        }
        Prefix::Other
    };
    HostSpec { address: string_of(&parts[0]), prefix }
}

/// Decides which address stands for a peer: `address` is what the address
/// text of `host` denotes, or `None` if it denotes no address.
pub fn first_ip(host: &HostSpec, address: Option<IpAddress>) -> (r: Option<IpAddress>)
    ensures
        r == chosen(host.prefix, address),
{
    match address {
        Some(ip) => {
            let fits = match (host.prefix, ip) {
                (Prefix::Absent, _) => true,
                (Prefix::Host4, IpAddress::V4(_)) => true,
                (Prefix::Host6, IpAddress::V6(_)) => true,
                _ => false,
            };
            if fits {
                Some(unmap_addr(ip))
            } else {
                None
            }
        },
        None => None,
    }
}

fn peer_entry(section: &Section) -> (e: PeerEntry)
    ensures
        e@.hosts == hosts_of(property_views(section.properties@)),
        e@.public_key == key_of(property_views(section.properties@)),
{
    let ghost props = property_views(section.properties@);
    let mut hosts: Vec<HostSpec> = Vec::new();
    let mut public_key: Option<String> = None;
    let mut j: usize = 0;
    assert(props.take(0) =~= Seq::<(Seq<char>, Seq<char>)>::empty());
    assert(host_views(hosts@) =~= Seq::<HostSpecView>::empty());
    while j < section.properties.len()
        invariant
            props == property_views(section.properties@),
            j <= section.properties.len(),
            host_views(hosts@) == hosts_of(props.take(j as int)),
            optional_text(public_key) == key_of(props.take(j as int)),
        decreases section.properties.len() - j,
    {
        let p = &section.properties[j];
        let lower = lowercase(p.key.as_str());
        proof {
            assert(props.take(j + 1).drop_last() =~= props.take(j as int));
            assert(props.take(j + 1).last() == (p.key@, p.value@));
        }
        match field_of(lower.as_str()) {
            Field::AllowedIps => {
                let ghost held = host_views(hosts@);
                let h = host_spec(p.value.as_str());
                hosts.push(h);
                assert(host_views(hosts@) =~= held.push(host_of(p.value@)));
            },
            Field::PublicKey => {
                public_key = Some(p.value.clone());
            },
            Field::Other => {},
        }
        j += 1;
    }
    assert(props.take(section.properties.len() as int) =~= props);
    PeerEntry { hosts, public_key }
}

/// Reduces the sections of a document to what its `Peer` sections say.
pub fn peer_entries(sections: &Vec<Section>) -> (r: Vec<PeerEntry>)
    ensures
        entry_views(r@) == entries_of(section_views(sections@)),
{
    let ghost doc = section_views(sections@);
    let mut r: Vec<PeerEntry> = Vec::new();
    let mut i: usize = 0;
    assert(doc.take(0) =~= Seq::<(Option<Seq<char>>, Seq<(Seq<char>, Seq<char>)>)>::empty());
    assert(entry_views(r@) =~= Seq::<PeerEntryView>::empty());
    while i < sections.len()
        invariant
            doc == section_views(sections@),
            i <= sections.len(),
            entry_views(r@) == entries_of(doc.take(i as int)),
        decreases sections.len() - i,
    {
        let section = &sections[i];
        proof {
            assert(doc.take(i + 1).drop_last() =~= doc.take(i as int));
            assert(doc.take(i + 1).last() == (
                optional_text(section.name),
                property_views(section.properties@),
            ));
        }
        let peer = match &section.name {
            Some(name) => {
                let lower = lowercase(name.as_str());
                names_peer(lower.as_str())
            },
            None => false,
        };
        if peer {
            let ghost held = entry_views(r@);
            let e = peer_entry(section);
            let ghost ev = e@;
            r.push(e);
            assert(entry_views(r@) =~= held.push(ev));
        }
        i += 1;
    }
    assert(doc.take(sections.len() as int) =~= doc);
    r
}

/// Reads an INI document and reduces it to what its `Peer` sections say.
pub fn parse_ini(text: &str) -> (r: Result<Vec<PeerEntry>, ConfigError>)
    ensures
        match ini_document(text@) {
            Some(doc) => r matches Ok(entries) && entry_views(entries@) == entries_of(doc),
            None => r matches Err(e) && e is Malformed,
        },
{
    match load_sections(text) {
        Ok(sections) => Ok(peer_entries(&sections)),
        Err(e) => Err(ConfigError::Malformed(describe(&e))),
    }
}

/// The bytes of a file without the byte order mark that may stand at its
/// start.
pub open spec fn without_mark(bytes: Seq<u8>) -> Seq<u8> {
    if bytes.len() >= 3 && bytes[0] == 0xef && bytes[1] == 0xbb && bytes[2] == 0xbf {
        bytes.skip(3)
    } else {
        bytes
    }
}

/// Reads the bytes of a configuration file: a byte order mark at the start is
/// passed over, the rest must be well-formed UTF-8 and an INI document.
pub fn load(bytes: &Vec<u8>) -> (r: Result<Vec<PeerEntry>, ConfigError>)
    ensures
        if valid_utf8(without_mark(bytes@)) {
            match ini_document(decode_utf8(without_mark(bytes@))) {
                Some(doc) => r matches Ok(entries) && entry_views(entries@) == entries_of(doc),
                None => r matches Err(e) && e is Malformed,
            }
        } else {
            r matches Err(e) && e is NotUtf8
        },
{
    let n = bytes.len();
    let start: usize = if n >= 3 && bytes[0] == 0xef && bytes[1] == 0xbb && bytes[2] == 0xbf {
        3
    } else {
        0
    };
    let rest = vstd::slice::slice_subrange(bytes.as_slice(), start, n);
    assert(rest@ =~= without_mark(bytes@));
    match utf8_text(rest) {
        None => Err(ConfigError::NotUtf8),
        Some(text) => {
            proof {
                vstd::utf8::encode_utf8_decode_utf8(text@);
            }
            parse_ini(text)
        },
    }
}

impl PeerEntry {
    /// The address and the key that this section binds, given what the
    /// address texts of its hosts denote: `parsed` holds one answer for each
    /// host, in order, and a missing answer counts as no address.
    pub fn select(&self, parsed: &Vec<Option<IpAddress>>) -> (r: Option<(IpAddress, String)>)
        ensures
            match selected(self@, parsed@) {
                Some((ip, key)) => r matches Some(pair) && pair.0 == ip && pair.1@ == key,
                None => r is None,
            },
    {
        let key = match &self.public_key {
            Some(key) => key,
            None => {
                return None;
            },
        };
        let mut i: usize = 0;
        while i < self.hosts.len()
            invariant
                i <= self.hosts.len(),
                self@.public_key == Some(key@),
                first_usable(self@.hosts, parsed@, 0) == first_usable(self@.hosts, parsed@, i as int),
            decreases self.hosts.len() - i,
        {
            let address = if i < parsed.len() {
                parsed[i]
            } else {
                None
            };
            assert(self@.hosts[i as int] == self.hosts[i as int]@);
            assert(address == answer(parsed@, i as int));
            match first_ip(&self.hosts[i], address) {
                Some(ip) => {
                    assert(first_usable(self@.hosts, parsed@, i as int) == Some(ip));
                    assert(self@.public_key == Some(key@));
                    return Some((ip, key.clone()));
                },
                None => {},
            }
            i += 1;
        }
        None
    }
}

/// Builds the static peer map from the `Peer` sections, given what their
/// address texts denote: `parsed` holds, for each entry in order, one answer
/// for each of its hosts. A section that gives no usable address or no key
/// is passed over. A configuration from which no peer is left is refused.
pub fn peer_map(entries: &Vec<PeerEntry>, parsed: &Vec<Vec<Option<IpAddress>>>) -> (r: Result<
    StaticPeerMap,
    ConfigError,
>)
    ensures
        match r {
            Ok(m) => m.wf() && m@ == bound(entry_views(entries@), answer_rows(parsed@)) && m@
                != Map::<IpAddress, Seq<char>>::empty(),
            Err(e) => e is NoPeers && bound(entry_views(entries@), answer_rows(parsed@))
                == Map::<IpAddress, Seq<char>>::empty(),
        },
{
    let ghost views = entry_views(entries@);
    let ghost given = answer_rows(parsed@);
    let mut m = StaticPeerMap::new();
    let mut i: usize = 0;
    let nothing: Vec<Option<IpAddress>> = Vec::new();
    assert(views.take(0) =~= Seq::<PeerEntryView>::empty());
    while i < entries.len()
        invariant
            views == entry_views(entries@),
            given == answer_rows(parsed@),
            nothing@ == Seq::<Option<IpAddress>>::empty(),
            i <= entries.len(),
            m.wf(),
            m@ == bound(views.take(i as int), given),
        decreases entries.len() - i,
    {
        proof {
            assert(views.take(i + 1).drop_last() =~= views.take(i as int));
            assert(views.take(i + 1).last() == entries[i as int]@);
        }
        let row = if i < parsed.len() {
            &parsed[i]
        } else {
            &nothing
        };
        assert(row@ == answers(given, i as int));
        match entries[i].select(row) {
            Some((ip, key)) => {
                proof {
                    first_usable_is_normal(entries[i as int]@.hosts, row@, 0);
                }
                m.insert(ip, key);
            },
            None => {},
        }
        i += 1;
    }
    assert(views.take(entries.len() as int) =~= views);
    proof {
        m.lemma_wf();
    }
    if m.len() == 0 {
        assert(m@.dom() =~= Set::<IpAddress>::empty());
        assert(m@ =~= Map::<IpAddress, Seq<char>>::empty());
        Err(ConfigError::NoPeers)
    } else {
        Ok(m)
    }
}

} // verus!
