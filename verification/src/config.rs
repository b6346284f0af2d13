//! Reading the extra WireGuard peers from a `wg-quick`-style configuration
//! text: `[Interface]` addresses and `[Peer]` sections.

use crate::net::{parse_ip_network, parsed_ip_network, IpAddress, IpNet};
use crate::peer::{
    key_from_base64, ExtraPeerConfig, ExtraPeerView, InvalidKey, InvalidKeyView, PresharedKey,
    PublicKey,
};
use crate::text::{
    char_views, chars_eq_ignore_ascii_case, chars_of, eq_ignore_ascii_case, parse_u16,
    parsed_u16, split, split_on, split_once, split_once_at, trim, trimmed, IntErrorKind,
};
use vstd::prelude::*;

verus! {

/// What went wrong on a line of the configuration.
#[derive(Debug)]
pub enum ConfErrorKind {
    /// A line that is neither blank, a comment, a section header nor
    /// `Key = Value`.
    ExpectedKeyValue,
    /// An `Address` that is no IP network: the value, and the network
    /// parser's error text.
    InvalidAddress { value: Vec<char>, detail: Vec<char> },
    InvalidPublicKey(InvalidKey),
    InvalidPresharedKey(InvalidKey),
    /// An `AllowedIPs` entry (as written between commas) that is no IP
    /// network, and the network parser's error text.
    InvalidAllowedIps { part: Vec<char>, detail: Vec<char> },
    InvalidPersistentKeepalive(IntErrorKind),
    MissingPublicKey,
    MissingEndpoint,
    MissingAllowedIps,
}

/// A configuration error as plain values.
pub enum ConfErrorKindView {
    ExpectedKeyValue,
    InvalidAddress { value: Seq<char>, detail: Seq<char> },
    InvalidPublicKey(InvalidKeyView),
    InvalidPresharedKey(InvalidKeyView),
    InvalidAllowedIps { part: Seq<char>, detail: Seq<char> },
    InvalidPersistentKeepalive(IntErrorKind),
    MissingPublicKey,
    MissingEndpoint,
    MissingAllowedIps,
}

impl View for ConfErrorKind {
    type V = ConfErrorKindView;

    open spec fn view(&self) -> ConfErrorKindView {
        match self {
            ConfErrorKind::ExpectedKeyValue => ConfErrorKindView::ExpectedKeyValue,
            ConfErrorKind::InvalidAddress { value, detail } => ConfErrorKindView::InvalidAddress {
                value: value@,
                detail: detail@,
            },
            ConfErrorKind::InvalidPublicKey(e) => ConfErrorKindView::InvalidPublicKey(e@),
            ConfErrorKind::InvalidPresharedKey(e) => ConfErrorKindView::InvalidPresharedKey(e@),
            ConfErrorKind::InvalidAllowedIps { part, detail } => ConfErrorKindView::InvalidAllowedIps {
                part: part@,
                detail: detail@,
            },
            ConfErrorKind::InvalidPersistentKeepalive(e) => ConfErrorKindView::InvalidPersistentKeepalive(*e),
            ConfErrorKind::MissingPublicKey => ConfErrorKindView::MissingPublicKey,
            ConfErrorKind::MissingEndpoint => ConfErrorKindView::MissingEndpoint,
            ConfErrorKind::MissingAllowedIps => ConfErrorKindView::MissingAllowedIps,
        }
    }
}

/// A configuration error and the line (counted from 1) it was found on; an
/// incomplete last `[Peer]` section is found at the end, on no line.
#[derive(Debug)]
pub struct ConfError {
    pub line: Option<usize>,
    pub kind: ConfErrorKind,
}

pub struct ConfErrorView {
    pub line: Option<usize>,
    pub kind: ConfErrorKindView,
}

impl View for ConfError {
    type V = ConfErrorView;

    open spec fn view(&self) -> ConfErrorView {
        ConfErrorView { line: self.line, kind: self.kind@ }
    }
}

/// The section of the configuration that a line belongs to.
#[derive(Clone, Copy, Debug, PartialEq, Eq, Structural)]
pub enum Section {
    Interface,
    Peer,
    Other,
}

/// The fields of a `[Peer]` section read so far.
#[derive(Debug)]
pub struct PeerBuilder {
    pub public_key: Option<PublicKey>,
    pub allowed_ips: Vec<IpNet>,
    pub endpoint: Option<Vec<char>>,
    pub psk: Option<PresharedKey>,
    pub persistent_keepalive_secs: Option<u16>,
}

pub struct PeerBuilderView {
    pub public_key: Option<Seq<u8>>,
    pub allowed_ips: Seq<IpNet>,
    pub endpoint: Option<Seq<char>>,
    pub psk: Option<Seq<u8>>,
    pub persistent_keepalive_secs: Option<u16>,
}

impl View for PeerBuilder {
    type V = PeerBuilderView;

    open spec fn view(&self) -> PeerBuilderView {
        PeerBuilderView {
            public_key: match self.public_key {
                Some(k) => Some(k@),
                None => None,
            },
            allowed_ips: self.allowed_ips@,
            endpoint: match self.endpoint {
                Some(e) => Some(e@),
                None => None,
            },
            psk: match self.psk {
                Some(k) => Some(k@),
                None => None,
            },
            persistent_keepalive_secs: self.persistent_keepalive_secs,
        }
    }
}

/// A `[Peer]` section before its first key.
pub open spec fn empty_builder() -> PeerBuilderView {
    PeerBuilderView {
        public_key: None,
        allowed_ips: Seq::empty(),
        endpoint: None,
        psk: None,
        persistent_keepalive_secs: None,
    }
}

impl Default for PeerBuilder {
    fn default() -> (r: PeerBuilder)
        ensures
            r@ == empty_builder(),
    {
        PeerBuilder {
            public_key: None,
            allowed_ips: Vec::new(),
            endpoint: None,
            psk: None,
            persistent_keepalive_secs: None,
        }
    }
}

/// `nets` followed by the networks of the comma-separated `parts` of an
/// `AllowedIPs` value, each read after trimming; the first part that is no
/// network is the error.
pub open spec fn add_allowed_ips(nets: Seq<IpNet>, parts: Seq<Seq<char>>) -> Result<
    Seq<IpNet>,
    ConfErrorKindView,
>
    decreases parts.len(),
{
    if parts.len() == 0 {
        Ok(nets)
    } else {
        match add_allowed_ips(nets, parts.drop_last()) {
            Ok(ns) => match parsed_ip_network(trimmed(parts.last())) {
                Ok(n) => Ok(ns.push(n)),
                Err(detail) => Err(
                    ConfErrorKindView::InvalidAllowedIps { part: parts.last(), detail },
                ),
            },
            Err(e) => Err(e),
        }
    }
}

/// `nets` followed by the networks of the `parts` before the first part
/// that is no network: what has been added when reading the parts stops.
pub open spec fn allowed_ips_read(nets: Seq<IpNet>, parts: Seq<Seq<char>>) -> Seq<IpNet>
    decreases parts.len(),
{
    if parts.len() == 0 {
        nets
    } else {
        match add_allowed_ips(nets, parts.drop_last()) {
            Ok(ns) => match parsed_ip_network(trimmed(parts.last())) {
                Ok(n) => ns.push(n),
                Err(_) => ns,
            },
            Err(_) => allowed_ips_read(nets, parts.drop_last()),
        }
    }
}

/// Once reading the `AllowedIPs` parts fails, it fails the same way with
/// more parts, and adds no more networks.
proof fn lemma_add_allowed_ips_err_sticks(nets: Seq<IpNet>, parts: Seq<Seq<char>>, k: int)
    requires
        0 <= k <= parts.len(),
        add_allowed_ips(nets, parts.take(k)) is Err,
    ensures
        add_allowed_ips(nets, parts) == add_allowed_ips(nets, parts.take(k)),
        allowed_ips_read(nets, parts) == allowed_ips_read(nets, parts.take(k)),
    decreases parts.len() - k,
{
    if k < parts.len() {
        assert(parts.take(k + 1).drop_last() =~= parts.take(k));
        lemma_add_allowed_ips_err_sticks(nets, parts, k + 1);
    } else {
        assert(parts.take(k) =~= parts);
    }
}

/// Reading `AllowedIPs` parts appends: the networks before stay first, and
/// each part, trimmed, reads as the network at its place after them.
pub proof fn lemma_add_allowed_ips_appends(nets: Seq<IpNet>, parts: Seq<Seq<char>>)
    ensures
        add_allowed_ips(nets, parts) matches Ok(ns) ==> {
            &&& ns.len() == nets.len() + parts.len()
            &&& forall|i: int| 0 <= i < nets.len() ==> ns[i] == nets[i]
            &&& forall|j: int|
                0 <= j < parts.len() ==> parsed_ip_network(trimmed(#[trigger] parts[j])) == Ok::<
                    IpNet,
                    Seq<char>,
                >(ns[nets.len() + j])
        },
    decreases parts.len(),
{
    if parts.len() > 0 {
        lemma_add_allowed_ips_appends(nets, parts.drop_last());
        if let Ok(ns) = add_allowed_ips(nets, parts) {
            let prev = add_allowed_ips(nets, parts.drop_last())->Ok_0;
            assert forall|j: int| 0 <= j < parts.len() implies parsed_ip_network(
                trimmed(#[trigger] parts[j]),
            ) == Ok::<IpNet, Seq<char>>(ns[nets.len() + j]) by {
                if j < parts.len() - 1 {
                    assert(parts[j] == parts.drop_last()[j]);
                }
            }
        }
    }
}

/// The `[Peer]` section `b` after the line `key = value`. Key names are
/// compared ignoring ASCII case; unknown keys are ignored.
pub open spec fn builder_set(b: PeerBuilderView, key: Seq<char>, value: Seq<char>) -> Result<
    PeerBuilderView,
    ConfErrorKindView,
> {
    if eq_ignore_ascii_case(key, "PublicKey"@) {
        match key_from_base64(value) {
            Ok(k) => Ok(PeerBuilderView { public_key: Some(k), ..b }),
            Err(e) => Err(ConfErrorKindView::InvalidPublicKey(e)),
        }
    } else if eq_ignore_ascii_case(key, "PresharedKey"@) {
        match key_from_base64(value) {
            Ok(k) => Ok(PeerBuilderView { psk: Some(k), ..b }),
            Err(e) => Err(ConfErrorKindView::InvalidPresharedKey(e)),
        }
    } else if eq_ignore_ascii_case(key, "AllowedIPs"@) {
        match add_allowed_ips(b.allowed_ips, split_on(value, ',')) {
            Ok(nets) => Ok(PeerBuilderView { allowed_ips: nets, ..b }),
            Err(e) => Err(e),
        }
    } else if eq_ignore_ascii_case(key, "Endpoint"@) {
        Ok(PeerBuilderView { endpoint: Some(value), ..b })
    } else if eq_ignore_ascii_case(key, "PersistentKeepalive"@) {
        match parsed_u16(value) {
            Ok(k) => Ok(PeerBuilderView { persistent_keepalive_secs: Some(k), ..b }),
            Err(e) => Err(ConfErrorKindView::InvalidPersistentKeepalive(e)),
        }
    } else {
        Ok(b)
    }
}

/// The `[Peer]` section `b` when the line `key = value` was refused: an
/// `AllowedIPs` line keeps the entries before the bad one, any other line
/// leaves the section as it was.
pub open spec fn builder_after_refused_set(b: PeerBuilderView, key: Seq<char>, value: Seq<char>) -> PeerBuilderView {
    if !eq_ignore_ascii_case(key, "PublicKey"@) && !eq_ignore_ascii_case(key, "PresharedKey"@)
        && eq_ignore_ascii_case(key, "AllowedIPs"@) {
        PeerBuilderView { allowed_ips: allowed_ips_read(b.allowed_ips, split_on(value, ',')), ..b }
    } else {
        b
    }
}

/// The peer that a complete `[Peer]` section describes: it needs a public
/// key, an endpoint and at least one allowed network.
pub open spec fn built_peer(b: PeerBuilderView) -> Result<ExtraPeerView, ConfErrorKindView> {
    match (b.public_key, b.endpoint) {
        (None, _) => Err(ConfErrorKindView::MissingPublicKey),
        (Some(_), None) => Err(ConfErrorKindView::MissingEndpoint),
        (Some(public_key), Some(endpoint)) => if b.allowed_ips.len() == 0 {
            Err(ConfErrorKindView::MissingAllowedIps)
        } else {
            Ok(
                ExtraPeerView {
                    public_key,
                    allowed_ips: b.allowed_ips,
                    endpoint,
                    psk: b.psk,
                    persistent_keepalive_secs: b.persistent_keepalive_secs,
                    resolve_interval_secs: None,
                },
            )
        },
    }
}

/// The network of an `AllowedIPs` entry, given what reading the trimmed
/// entry gave; an entry that is no network is reported as written, with the
/// parser's error text.
pub fn allowed_ip_from_parsed(parsed: Result<IpNet, Vec<char>>, part: Vec<char>) -> (r: Result<
    IpNet,
    ConfErrorKind,
>)
    ensures
        match (r, parsed) {
            (Ok(n), Ok(m)) => n == m,
            (Err(e), Err(d)) => e@ == ConfErrorKindView::InvalidAllowedIps { part: part@, detail: d@ },
            _ => false,
        },
{
    match parsed {
        Ok(net) => Ok(net),
        Err(detail) => Err(ConfErrorKind::InvalidAllowedIps { part, detail }),
    }
}

/// The network of an `Address` line of `[Interface]`, given what reading its
/// value gave.
pub fn address_from_parsed(parsed: Result<IpNet, Vec<char>>, value: Vec<char>) -> (r: Result<
    IpNet,
    ConfErrorKind,
>)
    ensures
        match (r, parsed) {
            (Ok(n), Ok(m)) => n == m,
            (Err(e), Err(d)) => e@ == ConfErrorKindView::InvalidAddress { value: value@, detail: d@ },
            _ => false,
        },
{
    match parsed {
        Ok(net) => Ok(net),
        Err(detail) => Err(ConfErrorKind::InvalidAddress { value, detail }),
    }
}

impl PeerBuilder {
    /// Applies the line `key = value` of a `[Peer]` section. When the line is
    /// refused, the section keeps what it had, and the `AllowedIPs` entries
    /// before the bad one.
    pub fn set(&mut self, key: &[char], value: &[char]) -> (r: Result<(), ConfErrorKind>)
        ensures
            match (r, builder_set(old(self)@, key@, value@)) {
                (Ok(()), Ok(b)) => final(self)@ == b,
                (Err(e), Err(v)) => e@ == v && final(self)@ == builder_after_refused_set(
                    old(self)@,
                    key@,
                    value@,
                ),
                _ => false,
            },
            // An accepted `AllowedIPs` line appends the networks of its
            // comma-separated entries, in order, and changes nothing else.
            r is Ok && eq_ignore_ascii_case(key@, "AllowedIPs"@) ==> {
                let parts = split_on(value@, ',');
                let before = old(self).allowed_ips@;
                let after = final(self).allowed_ips@;
                &&& after.len() == before.len() + parts.len()
                &&& forall|i: int| 0 <= i < before.len() ==> after[i] == before[i]
                &&& forall|j: int|
                    0 <= j < parts.len() ==> parsed_ip_network(trimmed(#[trigger] parts[j]))
                        == Ok::<IpNet, Seq<char>>(after[before.len() + j])
                &&& final(self).public_key == old(self).public_key
                &&& final(self).psk == old(self).psk
                &&& final(self).endpoint == old(self).endpoint
                &&& final(self).persistent_keepalive_secs == old(self).persistent_keepalive_secs
            },
    {
        proof {
            reveal_strlit("AllowedIPs");
            reveal_strlit("PublicKey");
            reveal_strlit("PresharedKey");
            lemma_add_allowed_ips_appends(old(self)@.allowed_ips, split_on(value@, ','));
        }
        if chars_eq_ignore_ascii_case(key, "PublicKey") {
            match PublicKey::from_base64(value) {
                Ok(k) => {
                    self.public_key = Some(k);
                },
                Err(e) => return Err(ConfErrorKind::InvalidPublicKey(e)),
            }
        } else if chars_eq_ignore_ascii_case(key, "PresharedKey") {
            match PresharedKey::from_base64(value) {
                Ok(k) => {
                    self.psk = Some(k);
                },
                Err(e) => return Err(ConfErrorKind::InvalidPresharedKey(e)),
            }
        } else if chars_eq_ignore_ascii_case(key, "AllowedIPs") {
            let parts = split(value, ',');
            let n = parts.len();
            let ghost nets0 = self.allowed_ips@;
            let ghost all = char_views(parts@);
            assert(all.take(0) =~= Seq::<Seq<char>>::empty());
            for i in 0..n
                invariant
                    n == parts@.len(),
                    all == char_views(parts@),
                    all == split_on(value@, ','),
                    add_allowed_ips(nets0, all.take(i as int)) == Ok::<Seq<IpNet>, ConfErrorKindView>(
                        self.allowed_ips@,
                    ),
                    allowed_ips_read(nets0, all.take(i as int)) == self.allowed_ips@,
                    self.public_key == old(self).public_key,
                    self.psk == old(self).psk,
                    self.endpoint == old(self).endpoint,
                    self.persistent_keepalive_secs == old(self).persistent_keepalive_secs,
                    nets0 == old(self).allowed_ips@,
                    !eq_ignore_ascii_case(key@, "PublicKey"@),
                    !eq_ignore_ascii_case(key@, "PresharedKey"@),
                    eq_ignore_ascii_case(key@, "AllowedIPs"@),
            {
                assert(all.take(i + 1).drop_last() =~= all.take(i as int));
                assert(all.take(i + 1).last() == parts@[i as int]@);
                let part = trim(parts[i].as_slice());
                let written = crate::text::copy_range(parts[i].as_slice(), 0, parts[i].len());
                assert(written@ =~= parts@[i as int]@);
                match allowed_ip_from_parsed(parse_ip_network(part.as_slice()), written) {
                    Ok(net) => {
                        self.allowed_ips.push(net);
                    },
                    Err(e) => {
                        proof {
                            lemma_add_allowed_ips_err_sticks(nets0, all, i + 1);
                        }
                        return Err(e);
                    },
                }
            }
            assert(all.take(n as int) =~= all);
        } else if chars_eq_ignore_ascii_case(key, "Endpoint") {
            self.endpoint = Some(crate::text::copy_range(value, 0, value.len()));
            assert(self.endpoint->0@ =~= value@);
        } else if chars_eq_ignore_ascii_case(key, "PersistentKeepalive") {
            match parse_u16(value) {
                Ok(k) => {
                    self.persistent_keepalive_secs = Some(k);
                },
                Err(e) => return Err(ConfErrorKind::InvalidPersistentKeepalive(e)),
            }
        }
        // Unknown keys are silently ignored for forward compatibility.
        Ok(())
    }

    /// The peer of a complete `[Peer]` section.
    pub fn build(self) -> (r: Result<ExtraPeerConfig, ConfErrorKind>)
        ensures
            match (r, built_peer(self@)) {
                (Ok(p), Ok(v)) => p@ == v,
                (Err(e), Err(v)) => e@ == v,
                _ => false,
            },
    {
        let public_key = match self.public_key {
            Some(k) => k,
            None => return Err(ConfErrorKind::MissingPublicKey),
        };
        let endpoint = match self.endpoint {
            Some(e) => e,
            None => return Err(ConfErrorKind::MissingEndpoint),
        };
        if self.allowed_ips.len() == 0 {
            return Err(ConfErrorKind::MissingAllowedIps);
        }
        Ok(
            ExtraPeerConfig {
                public_key,
                allowed_ips: self.allowed_ips,
                endpoint,
                psk: self.psk,
                persistent_keepalive_secs: self.persistent_keepalive_secs,
                resolve_interval_secs: None,
            },
        )
    }
}

/// The extra peers as plain values.
pub open spec fn peer_views(peers: Seq<ExtraPeerConfig>) -> Seq<ExtraPeerView> {
    peers.map_values(|p: ExtraPeerConfig| p@)
}

/// The addresses and peers read from a configuration.
#[derive(Debug)]
pub struct ParsedConf {
    pub addresses: Vec<IpNet>,
    pub peers: Vec<ExtraPeerConfig>,
}

pub struct ParsedConfView {
    pub addresses: Seq<IpNet>,
    pub peers: Seq<ExtraPeerView>,
}

impl View for ParsedConf {
    type V = ParsedConfView;

    open spec fn view(&self) -> ParsedConfView {
        ParsedConfView { addresses: self.addresses@, peers: peer_views(self.peers@) }
    }
}

/// What has been read of a configuration after some lines.
pub struct ParseStateView {
    pub addresses: Seq<IpNet>,
    pub peers: Seq<ExtraPeerView>,
    pub section: Section,
    pub builder: Option<PeerBuilderView>,
}

pub open spec fn initial_state() -> ParseStateView {
    ParseStateView {
        addresses: Seq::empty(),
        peers: Seq::empty(),
        section: Section::Other,
        builder: None,
    }
}

/// A blank line or a comment (`#` or `;`).
pub open spec fn is_skipped_line(line: Seq<char>) -> bool {
    line.len() == 0 || line[0] == '#' || line[0] == ';'
}

/// A section header: `[` ... `]`.
pub open spec fn is_header_line(line: Seq<char>) -> bool {
    line.len() > 0 && line[0] == '[' && line.last() == ']'
}

/// The state after the trimmed line `line`, number `lineno`. A section
/// header first completes the open `[Peer]` section, if any; `[Interface]`
/// and `[Peer]` (ignoring ASCII case) open those sections, any other header
/// a section whose keys are ignored. Other lines are `Key = Value`; in
/// `[Interface]` only `Address` is read.
pub open spec fn line_step(st: ParseStateView, line: Seq<char>, lineno: usize) -> Result<
    ParseStateView,
    ConfErrorView,
> {
    if is_skipped_line(line) {
        Ok(st)
    } else if is_header_line(line) {
        let flushed: Result<Seq<ExtraPeerView>, ConfErrorView> = match st.builder {
            Some(b) => match built_peer(b) {
                Ok(p) => Ok(st.peers.push(p)),
                Err(k) => Err(ConfErrorView { line: Some(lineno), kind: k }),
            },
            None => Ok(st.peers),
        };
        match flushed {
            Err(e) => Err(e),
            Ok(peers) => if eq_ignore_ascii_case(line, "[Interface]"@) {
                Ok(ParseStateView { peers, section: Section::Interface, builder: None, ..st })
            } else if eq_ignore_ascii_case(line, "[Peer]"@) {
                Ok(
                    ParseStateView {
                        peers,
                        section: Section::Peer,
                        builder: Some(empty_builder()),
                        ..st
                    },
                )
            } else {
                Ok(ParseStateView { peers, section: Section::Other, builder: None, ..st })
            },
        }
    } else {
        match split_once_at(line, '=') {
            None => Err(ConfErrorView { line: Some(lineno), kind: ConfErrorKindView::ExpectedKeyValue }),
            Some((k, v)) => {
                let key = trimmed(k);
                let value = trimmed(v);
                match st.section {
                    Section::Interface => if eq_ignore_ascii_case(key, "Address"@) {
                        match parsed_ip_network(value) {
                            Ok(n) => Ok(ParseStateView { addresses: st.addresses.push(n), ..st }),
                            Err(detail) => Err(
                                ConfErrorView {
                                    line: Some(lineno),
                                    kind: ConfErrorKindView::InvalidAddress { value, detail },
                                },
                            ),
                        }
                    } else {
                        Ok(st)
                    },
                    Section::Peer => match st.builder {
                        Some(b) => match builder_set(b, key, value) {
                            Ok(b2) => Ok(ParseStateView { builder: Some(b2), ..st }),
                            Err(k) => Err(ConfErrorView { line: Some(lineno), kind: k }),
                        },
                        None => Ok(st),
                    },
                    Section::Other => Ok(st),
                }
            },
        }
    }
}

/// The state after all `lines`, numbered from 1, or the first error.
pub open spec fn run_lines(lines: Seq<Seq<char>>) -> Result<ParseStateView, ConfErrorView>
    decreases lines.len(),
{
    if lines.len() == 0 {
        Ok(initial_state())
    } else {
        match run_lines(lines.drop_last()) {
            Ok(st) => line_step(st, trimmed(lines.last()), lines.len() as usize),
            Err(e) => Err(e),
        }
    }
}

/// What a configuration text reads as. It is read line by line, lines ending
/// at `\n`; as every line is trimmed, a `\r` before the `\n` and a last line
/// ending make no difference. A `[Peer]` section still open at the end is
/// completed there.
pub open spec fn parse_conf_result(content: Seq<char>) -> Result<ParsedConfView, ConfErrorView> {
    match run_lines(split_on(content, '\n')) {
        Err(e) => Err(e),
        Ok(st) => match st.builder {
            Some(b) => match built_peer(b) {
                Ok(p) => Ok(ParsedConfView { addresses: st.addresses, peers: st.peers.push(p) }),
                Err(k) => Err(ConfErrorView { line: None, kind: k }),
            },
            None => Ok(ParsedConfView { addresses: st.addresses, peers: st.peers }),
        },
    }
}

struct ConfParser {
    addresses: Vec<IpNet>,
    peers: Vec<ExtraPeerConfig>,
    section: Section,
    builder: Option<PeerBuilder>,
}

impl View for ConfParser {
    type V = ParseStateView;

    closed spec fn view(&self) -> ParseStateView {
        ParseStateView {
            addresses: self.addresses@,
            peers: peer_views(self.peers@),
            section: self.section,
            builder: match self.builder {
                Some(b) => Some(b@),
                None => None,
            },
        }
    }
}

impl ConfParser {
    fn parse_line(&mut self, line: &[char], lineno: usize) -> (r: Result<(), ConfError>)
        ensures
            match (r, line_step(old(self)@, line@, lineno)) {
                (Ok(()), Ok(st)) => final(self)@ == st,
                (Err(e), Err(v)) => e@ == v,
                _ => false,
            },
    {
        let n = line.len();
        if n == 0 || line[0] == '#' || line[0] == ';' {
            return Ok(());
        }
        if line[0] == '[' && line[n - 1] == ']' {
            if let Some(pb) = self.builder.take() {
                match pb.build() {
                    Ok(peer) => {
                        let ghost before = self.peers@;
                        self.peers.push(peer);
                        assert(peer_views(self.peers@) =~= peer_views(before).push(peer@));
                    },
                    Err(kind) => return Err(ConfError { line: Some(lineno), kind }),
                }
            }
            if chars_eq_ignore_ascii_case(line, "[Interface]") {
                self.section = Section::Interface;
            } else if chars_eq_ignore_ascii_case(line, "[Peer]") {
                self.builder = Some(PeerBuilder::default());
                self.section = Section::Peer;
            } else {
                self.section = Section::Other;
            }
            return Ok(());
        }
        let (k, v) = match split_once(line, '=') {
            Some(kv) => kv,
            None => return Err(ConfError { line: Some(lineno), kind: ConfErrorKind::ExpectedKeyValue }),
        };
        let key = trim(k.as_slice());
        let value = trim(v.as_slice());
        match self.section {
            Section::Interface => {
                if chars_eq_ignore_ascii_case(key.as_slice(), "Address") {
                    let parsed = parse_ip_network(value.as_slice());
                    match address_from_parsed(parsed, value) {
                        Ok(net) => {
                            self.addresses.push(net);
                        },
                        Err(kind) => return Err(ConfError { line: Some(lineno), kind }),
                    }
                }
                // PrivateKey, DNS, ListenPort, etc. are intentionally ignored.
            },
            Section::Peer => {
                if let Some(pb) = &mut self.builder {
                    match pb.set(key.as_slice(), value.as_slice()) {
                        Ok(()) => {},
                        Err(kind) => return Err(ConfError { line: Some(lineno), kind }),
                    }
                }
            },
            Section::Other => {},
        }
        Ok(())
    }
}

/// Reads the addresses and extra peers of a configuration text.
pub fn parse_conf(content: &str) -> (r: Result<ParsedConf, ConfError>)
    ensures
        match (r, parse_conf_result(content@)) {
            (Ok(p), Ok(v)) => p@ == v,
            (Err(e), Err(v)) => e@ == v,
            _ => false,
        },
{
    let chars = chars_of(content);
    let lines = split(chars.as_slice(), '\n');
    let ghost all = char_views(lines@);
    let mut parser = ConfParser {
        addresses: Vec::new(),
        peers: Vec::new(),
        section: Section::Other,
        builder: None,
    };
    assert(parser@.peers =~= Seq::<ExtraPeerView>::empty());
    let n = lines.len();
    assert(all.take(0) =~= Seq::<Seq<char>>::empty());
    for i in 0..n
        invariant
            n == lines@.len(),
            all == char_views(lines@),
            all == split_on(content@, '\n'),
            run_lines(all.take(i as int)) == Ok::<ParseStateView, ConfErrorView>(parser@),
    {
        assert(all.take(i + 1).drop_last() =~= all.take(i as int));
        assert(all.take(i + 1).last() == lines@[i as int]@);
        let line = trim(lines[i].as_slice());
        match parser.parse_line(line.as_slice(), i + 1) {
            Ok(()) => {},
            Err(e) => {
                proof {
                    lemma_run_lines_err_sticks(all, i + 1);
                }
                return Err(e);
            },
        }
    }
    assert(all.take(n as int) =~= all);
    let ConfParser { addresses, mut peers, section: _, builder } = parser;
    if let Some(pb) = builder {
        match pb.build() {
            Ok(peer) => {
                let ghost before = peers@;
                peers.push(peer);
                assert(peer_views(peers@) =~= peer_views(before).push(peer@));
            },
            Err(kind) => return Err(ConfError { line: None, kind }),
        }
    }
    Ok(ParsedConf { addresses, peers })
}

/// Once reading the lines fails, it fails the same way with more lines.
proof fn lemma_run_lines_err_sticks(lines: Seq<Seq<char>>, k: int)
    requires
        0 <= k <= lines.len(),
        run_lines(lines.take(k)) is Err,
    ensures
        run_lines(lines) == run_lines(lines.take(k)),
    decreases lines.len() - k,
{
    if k < lines.len() {
        assert(lines.take(k + 1).drop_last() =~= lines.take(k));
        lemma_run_lines_err_sticks(lines, k + 1);
    } else {
        assert(lines.take(k) =~= lines);
    }
}

/// Some allowed network of the peer is a default route (prefix 0).
pub open spec fn has_default_route(p: ExtraPeerView) -> bool {
    exists|j: int| 0 <= j < p.allowed_ips.len() && #[trigger] p.allowed_ips[j].prefix == 0
}

/// The peers of `peers` without a default route, in order.
pub open spec fn without_default_route(peers: Seq<ExtraPeerView>) -> Seq<ExtraPeerView>
    decreases peers.len(),
{
    if peers.len() == 0 {
        Seq::empty()
    } else {
        without_default_route(peers.drop_last()) + if has_default_route(peers.last()) {
            Seq::empty()
        } else {
            seq![peers.last()]
        }
    }
}

proof fn lemma_without_default_route(peers: Seq<ExtraPeerView>)
    ensures
        forall|i: int|
            0 <= i < without_default_route(peers).len() ==> !has_default_route(
                #[trigger] without_default_route(peers)[i],
            ),
    decreases peers.len(),
{
    if peers.len() > 0 {
        let w = without_default_route(peers.drop_last());
        lemma_without_default_route(peers.drop_last());
        let r = without_default_route(peers);
        assert forall|i: int| 0 <= i < r.len() implies !has_default_route(#[trigger] r[i]) by {
            if i < w.len() {
                assert(r[i] == w[i]);
            }
        }
    }
}

/// The addresses of networks.
pub open spec fn net_addresses(nets: Seq<IpNet>) -> Seq<IpAddress> {
    nets.map_values(|n: IpNet| n.ip)
}

/// The extra WireGuard peers and the tunnel addresses that go with them.
#[derive(Debug)]
pub struct ExtraPeersConfig {
    pub addresses: Vec<IpAddress>,
    pub peers: Vec<ExtraPeerConfig>,
}

impl Default for ExtraPeersConfig {
    fn default() -> (r: ExtraPeersConfig)
        ensures
            r.addresses@.len() == 0,
            r.peers@.len() == 0,
    {
        ExtraPeersConfig { addresses: Vec::new(), peers: Vec::new() }
    }
}

/// The addresses and peers that `load` gives for a configuration text
/// (`None`: no file, or one that could not be read).
pub open spec fn loaded(allow_lan: bool, content: Option<Seq<char>>) -> (Seq<IpAddress>, Seq<ExtraPeerView>) {
    if allow_lan {
        (Seq::empty(), Seq::empty())
    } else {
        match content {
            None => (Seq::empty(), Seq::empty()),
            Some(c) => match parse_conf_result(c) {
                Ok(p) => (net_addresses(p.addresses), without_default_route(p.peers)),
                Err(_) => (Seq::empty(), Seq::empty()),
            },
        }
    }
}

/// With Local Network Sharing off, a text that parses loads the address of
/// every `[Interface]` network, all of them and in order, and exactly the
/// parsed peers that have no default route, in order.
pub proof fn lemma_load_keeps_addresses_and_filters_peers(content: Seq<char>)
    ensures
        parse_conf_result(content) is Ok ==> {
            let p = parse_conf_result(content)->Ok_0;
            &&& loaded(false, Some(content)).0 == p.addresses.map_values(|n: IpNet| n.ip)
            &&& loaded(false, Some(content)).1 == p.peers.filter(
                |q: ExtraPeerView| !has_default_route(q),
            )
        },
{
    if parse_conf_result(content) is Ok {
        let p = parse_conf_result(content)->Ok_0;
        assert(net_addresses(p.addresses) =~= p.addresses.map_values(|n: IpNet| n.ip));
        lemma_without_default_route_filters(p.peers);
    }
}

/// `without_default_route` keeps exactly the peers without a default route.
proof fn lemma_without_default_route_filters(peers: Seq<ExtraPeerView>)
    ensures
        without_default_route(peers) == peers.filter(|q: ExtraPeerView| !has_default_route(q)),
    decreases peers.len(),
{
    let keep = |q: ExtraPeerView| !has_default_route(q);
    if peers.len() == 0 {
        reveal(Seq::filter);
        assert(peers.filter(keep) =~= Seq::<ExtraPeerView>::empty());
        assert(without_default_route(peers) =~= Seq::<ExtraPeerView>::empty());
    } else {
        let init = peers.drop_last();
        lemma_without_default_route_filters(init);
        assert(peers =~= init.push(peers.last()));
        init.lemma_filter_push(peers.last(), keep);
        assert(without_default_route(peers) =~= peers.filter(keep));
    }
}

/// `true` when some allowed network of `peer` is a default route.
pub fn peer_has_default_route(peer: &ExtraPeerConfig) -> (r: bool)
    ensures
        r == has_default_route(peer@),
{
    let n = peer.allowed_ips.len();
    for j in 0..n
        invariant
            n == peer.allowed_ips@.len(),
            forall|k: int| 0 <= k < j ==> peer.allowed_ips@[k].prefix != 0,
    {
        if peer.allowed_ips[j].prefix() == 0 {
            return true;
        }
    }
    false
}

/// The extra peers configured in `content`, the text of the extra peers
/// file (`None` where it could not be read). Extra WireGuard peers require
/// Local Network Sharing to be disabled: with `allow_lan` nothing is loaded.
/// A text that does not parse loads nothing; peers with default-route
/// AllowedIPs are ignored.
pub fn load(allow_lan: bool, content: Option<&str>) -> (r: ExtraPeersConfig)
    ensures
        (r.addresses@, peer_views(r.peers@)) == loaded(
            allow_lan,
            match content {
                Some(c) => Some(c@),
                None => None,
            },
        ),
        allow_lan ==> r.addresses@.len() == 0 && r.peers@.len() == 0,
        forall|i: int| 0 <= i < r.peers@.len() ==> !has_default_route(#[trigger] r.peers@[i]@),
        !allow_lan && content is Some && parse_conf_result(content->0@) is Ok ==> {
            let p = parse_conf_result(content->0@)->Ok_0;
            &&& r.addresses@ == p.addresses.map_values(|n: IpNet| n.ip)
            &&& peer_views(r.peers@) == p.peers.filter(|q: ExtraPeerView| !has_default_route(q))
        },
        (content is None || parse_conf_result(content->0@) is Err) ==> r.addresses@.len() == 0
            && r.peers@.len() == 0,
{
    if allow_lan {
        return ExtraPeersConfig::default();
    }
    let content = match content {
        Some(c) => c,
        None => return ExtraPeersConfig::default(),
    };
    let parsed = match parse_conf(content) {
        Ok(parsed) => parsed,
        Err(_) => return ExtraPeersConfig::default(),
    };
    let mut addresses: Vec<IpAddress> = Vec::new();
    let na = parsed.addresses.len();
    for i in 0..na
        invariant
            na == parsed.addresses@.len(),
            addresses@ == net_addresses(parsed.addresses@.take(i as int)),
    {
        addresses.push(parsed.addresses[i].ip());
        assert(addresses@ =~= net_addresses(parsed.addresses@.take(i + 1)));
    }
    assert(parsed.addresses@.take(na as int) =~= parsed.addresses@);
    let ghost all = peer_views(parsed.peers@);
    let mut peers: Vec<ExtraPeerConfig> = Vec::new();
    for peer in it: parsed.peers.into_iter()
        invariant
            it.seq() == parsed.peers@,
            all == peer_views(parsed.peers@),
            peer_views(peers@) == without_default_route(all.take(it.index() as int)),
    {
        let ghost k = it.index();
        assert(all.take(k + 1).drop_last() =~= all.take(k as int));
        assert(all.take(k + 1).last() == peer@);
        if !peer_has_default_route(&peer) {
            let ghost before = peers@;
            peers.push(peer);
            assert(peer_views(peers@) =~= peer_views(before).push(all[k as int]));
        }
        assert(peer_views(peers@) =~= without_default_route(all.take(k + 1)));
    }
    assert(all.take(all.len() as int) =~= all);
    proof {
        lemma_load_keeps_addresses_and_filters_peers(content@);
        lemma_without_default_route(all);
        assert forall|i: int| 0 <= i < peers@.len() implies !has_default_route(
            #[trigger] peers@[i]@,
        ) by {
            assert(peer_views(peers@)[i] == peers@[i]@);
        }
    }
    ExtraPeersConfig { addresses, peers }
}

/// A peer as a `[Peer]` section must describe it: a 32-byte public key, at
/// least one allowed network, a 32-byte preshared key if any, and no resolve
/// interval of its own.
pub open spec fn complete_peer(p: ExtraPeerView) -> bool {
    &&& p.public_key.len() == 32
    &&& p.allowed_ips.len() > 0
    &&& p.psk matches Some(k) ==> k.len() == 32
    &&& p.resolve_interval_secs is None
}

spec fn builder_keys_ok(b: PeerBuilderView) -> bool {
    &&& b.public_key matches Some(k) ==> k.len() == 32
    &&& b.psk matches Some(k) ==> k.len() == 32
}

spec fn state_ok(st: ParseStateView) -> bool {
    &&& forall|i: int| 0 <= i < st.peers.len() ==> complete_peer(#[trigger] st.peers[i])
    &&& st.builder matches Some(b) ==> builder_keys_ok(b)
}

proof fn lemma_line_step_ok(st: ParseStateView, line: Seq<char>, lineno: usize)
    requires
        state_ok(st),
    ensures
        line_step(st, line, lineno) matches Ok(st2) ==> state_ok(st2),
{
    if let Ok(st2) = line_step(st, line, lineno) {
        if !is_skipped_line(line) && is_header_line(line) {
            if let Some(b) = st.builder {
                if let Ok(p) = built_peer(b) {
                    assert forall|i: int| 0 <= i < st2.peers.len() implies complete_peer(
                        #[trigger] st2.peers[i],
                    ) by {
                        if i < st.peers.len() {
                            assert(st2.peers[i] == st.peers[i]);
                        }
                    }
                }
            }
        }
    }
}

proof fn lemma_run_lines_ok(lines: Seq<Seq<char>>)
    ensures
        run_lines(lines) matches Ok(st) ==> state_ok(st),
    decreases lines.len(),
{
    if lines.len() > 0 {
        lemma_run_lines_ok(lines.drop_last());
        if let Ok(st) = run_lines(lines.drop_last()) {
            lemma_line_step_ok(st, trimmed(lines.last()), lines.len() as usize);
        }
    }
}

/// Every peer read from a configuration is complete: it has a 32-byte public
/// key, at least one allowed network, a 32-byte preshared key if any, and no
/// resolve interval of its own.
pub proof fn lemma_parsed_peers_complete(content: Seq<char>)
    ensures
        parse_conf_result(content) matches Ok(p) ==> forall|i: int|
            0 <= i < p.peers.len() ==> complete_peer(#[trigger] p.peers[i]),
{
    lemma_run_lines_ok(split_on(content, '\n'));
    if let Ok(p) = parse_conf_result(content) {
        let st = run_lines(split_on(content, '\n'))->Ok_0;
        assert forall|i: int| 0 <= i < p.peers.len() implies complete_peer(#[trigger] p.peers[i]) by {
            if i < st.peers.len() {
                assert(p.peers[i] == st.peers[i]);
            }
        }
    }
}

} // verus!
