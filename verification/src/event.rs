//! The source-neutral request event, what each telemetry source can record, and trusted proxies.

use crate::network::{
    address_display, canonical, parsed_address, parsed_network, Address, Network,
};
use crate::text::{
    ascii_lowercase, decimal, decimal_text, join, join_texts, lower, opt_text, same_text, split,
    split_on, texts, trim, trim_text,
};
use vstd::prelude::*;
use vstd::string::*;

verus! {

broadcast use vstd::string::group_string_axioms;

/// A point in time: whole seconds since the Unix epoch and the nanoseconds after them.
#[derive(Clone, Copy, Debug, PartialEq, Eq, Structural)]
pub struct Timestamp {
    pub seconds: i64,
    pub nanos: u32,
}

impl Timestamp {
    pub open spec fn before(self, other: Timestamp) -> bool {
        self.seconds < other.seconds || (self.seconds == other.seconds && self.nanos < other.nanos)
    }

    pub fn is_before(&self, other: &Timestamp) -> (r: bool)
        ensures
            r == self.before(*other),
    {
        self.seconds < other.seconds || (self.seconds == other.seconds && self.nanos < other.nanos)
    }
}

/// A configured proxy network that is permitted to supply a forwarded client address.
#[derive(Clone, Copy, Debug, PartialEq, Eq, Structural)]
pub struct TrustedProxy(Network);

/// The network that a proxy setting names: a CIDR network, or else a single address.
pub open spec fn proxy_network(value: Seq<char>) -> Option<Network> {
    match parsed_network(value) {
        Some(n) => Some(n),
        None => match parsed_address(value) {
            Some(a) => Some(
                Network { v4: a.v4, bits: a.bits, prefix: crate::network::width(a.v4) as u8 },
            ),
            None => None,
        },
    }
}

/// How a text is written in a diagnostic: in quotes, with its special characters escaped.
pub uninterp spec fn debug_display(text: Seq<char>) -> Seq<char>;

/// Writes a text with std's `Debug` for `str`. The result is a function of the text.
#[verifier::external_body]
pub(crate) fn debug_text(text: &str) -> (r: String)
    ensures
        r@ == debug_display(text@),
{
    format!("{text:?}")
}

impl TrustedProxy {
    pub closed spec fn network(self) -> Network {
        self.0
    }

    #[verifier::type_invariant]
    closed spec fn is_network(self) -> bool {
        self.0.wf()
    }

    /// Reads a CIDR network or a single IP address.
    pub fn parse(value: &str) -> (r: Result<TrustedProxy, String>)
        ensures
            r is Ok == proxy_network(value@) is Some,
            r matches Ok(p) ==> Some(p.network()) == proxy_network(value@),
            r matches Err(e) ==> e@ == debug_display(value@)
                + " is not a valid IP address or CIDR network"@,
    {
        match Network::parse(value) {
            Some(n) => Ok(TrustedProxy(n)),
            None => match Address::parse(value) {
                Some(a) => Ok(TrustedProxy(Network::single(&a))),
                None => {
                    let mut message = debug_text(value);
                    message.append(" is not a valid IP address or CIDR network");
                    Err(message)
                },
            },
        }
    }

    pub fn display(&self) -> (r: String)
        ensures
            r@ == crate::network::network_display(self.network()),
    {
        proof {
            use_type_invariant(self);
        }
        self.0.display()
    }
}

impl std::str::FromStr for TrustedProxy {
    type Err = String;

    fn from_str(value: &str) -> Result<Self, Self::Err> {
        TrustedProxy::parse(value)
    }
}

/// Immutable trusted-proxy configuration. With an empty set, forwarded headers are ignored,
/// because an untrusted peer can forge them.
#[derive(Clone, Debug)]
pub struct TrustedProxySet {
    proxies: Vec<TrustedProxy>,
}

impl Default for TrustedProxySet {
    fn default() -> (r: Self)
        ensures
            r.networks() == Seq::<Network>::empty(),
    {
        let r = TrustedProxySet { proxies: Vec::new() };
        assert(r.networks() =~= Seq::<Network>::empty());
        r
    }
}

/// Whether one of the networks holds the address, in its canonical form.
pub open spec fn trusted(networks: Seq<Network>, address: Address) -> bool {
    exists|i: int| 0 <= i < networks.len() && #[trigger] networks[i].holds(canonical(address))
}

/// The last address of the chain that is not trusted.
pub open spec fn nearest_untrusted(networks: Seq<Network>, chain: Seq<Address>) -> Option<Address>
    decreases chain.len(),
{
    if chain.len() == 0 {
        None
    } else if !trusted(networks, chain.last()) {
        Some(chain.last())
    } else {
        nearest_untrusted(networks, chain.drop_last())
    }
}

/// The canonical addresses of a chain of readable addresses.
pub open spec fn canonical_chain(chain: Seq<Option<Address>>) -> Seq<Address> {
    chain.map_values(|a: Option<Address>| canonical(a.unwrap()))
}

/// The client behind a direct peer and the chain of addresses it forwarded: none unless the
/// peer is trusted and every address of the chain is readable; then the last address of the
/// chain that is not a trusted proxy itself.
pub open spec fn client_of(
    networks: Seq<Network>,
    peer: Option<Address>,
    chain: Seq<Option<Address>>,
) -> Option<Address> {
    if peer is Some && trusted(networks, peer.unwrap()) && (forall|i: int|
        0 <= i < chain.len() ==> (#[trigger] chain[i]) is Some) {
        nearest_untrusted(networks, canonical_chain(chain))
    } else {
        None
    }
}

/// What each of the comma-separated parts of a forwarded chain reads as.
pub open spec fn chain_of(forwarded_for: Seq<char>) -> Seq<Option<Address>> {
    split_on(forwarded_for, ',').map_values(|part: Seq<char>| parsed_address(trim_text(part)))
}

/// The client address, as text, that a peer and a forwarded chain give, both as text.
pub open spec fn forwarded_client(
    networks: Seq<Network>,
    peer: Option<Seq<char>>,
    forwarded_for: Option<Seq<char>>,
) -> Option<Seq<char>> {
    if peer is None || forwarded_for is None {
        None
    } else {
        match client_of(networks, parsed_address(peer.unwrap()), chain_of(forwarded_for.unwrap())) {
            Some(a) => Some(address_display(a)),
            None => None,
        }
    }
}

/// The values of the X-Forwarded-For headers, in observed order.
pub open spec fn forwarded_values(headers: Seq<HttpHeader>) -> Seq<Seq<char>>
    decreases headers.len(),
{
    if headers.len() == 0 {
        seq![]
    } else if lower(headers.last().name@) == lower("x-forwarded-for"@) {
        forwarded_values(headers.drop_last()).push(headers.last().value@)
    } else {
        forwarded_values(headers.drop_last())
    }
}

/// The client address that a peer and the headers of a request give.
pub open spec fn client_from_headers(
    networks: Seq<Network>,
    peer: Option<Seq<char>>,
    headers: Seq<HttpHeader>,
) -> Option<Seq<char>> {
    let values = forwarded_values(headers);
    if values.len() == 0 {
        None
    } else {
        forwarded_client(networks, peer, Some(join_texts(values, ", "@)))
    }
}

pub open spec fn opt_str(value: Option<&str>) -> Option<Seq<char>> {
    match value {
        Some(s) => Some(s@),
        None => None,
    }
}

impl TrustedProxySet {
    /// The networks of the proxies.
    pub closed spec fn networks(&self) -> Seq<Network> {
        self.proxies@.map_values(|p: TrustedProxy| p.network())
    }

    pub fn new(proxies: Vec<TrustedProxy>) -> (r: Self)
        ensures
            r.networks() == proxies@.map_values(|p: TrustedProxy| p.network()),
    {
        TrustedProxySet { proxies }
    }

    /// The configured networks as text, in the order in which they were given.
    pub fn configured_proxy_networks(&self) -> (r: Vec<String>)
        ensures
            texts(r@) == self.networks().map_values(
                |n: Network| crate::network::network_display(n),
            ),
    {
        let mut r: Vec<String> = Vec::new();
        let mut i: usize = 0;
        while i < self.proxies.len()
            invariant
                i <= self.proxies@.len(),
                r@.len() == i,
                forall|j: int|
                    0 <= j < i ==> (#[trigger] r@[j])@ == crate::network::network_display(
                        self.networks()[j],
                    ),
            decreases self.proxies.len() - i,
        {
            let text = self.proxies[i].display();
            r.push(text);
            i = i + 1;
        }
        assert(texts(r@) =~= self.networks().map_values(
            |n: Network| crate::network::network_display(n),
        ));
        r
    }

    /// Sets the client address of an event from its peer and its headers.
    pub fn resolve_client_ip(&self, event: &mut WebEvent)
        ensures
            opt_text(final(event).client_ip) == client_from_headers(
                self.networks(),
                opt_text(old(event).source_ip),
                old(event).headers@,
            ),
            *final(event) == (WebEvent { client_ip: final(event).client_ip, ..*old(event) }),
    {
        let client = match &event.source_ip {
            Some(peer) => self.validated_client_from_headers(Some(peer.as_str()), &event.headers),
            None => self.validated_client_from_headers(None, &event.headers),
        };
        event.client_ip = client;
    }

    pub fn validated_client_from_headers(
        &self,
        observed_peer: Option<&str>,
        headers: &Vec<HttpHeader>,
    ) -> (r: Option<String>)
        ensures
            opt_text(r) == client_from_headers(self.networks(), opt_str(observed_peer), headers@),
    {
        let mut values: Vec<String> = Vec::new();
        let wanted = ascii_lowercase("x-forwarded-for");
        let mut i: usize = 0;
        while i < headers.len()
            invariant
                i <= headers@.len(),
                wanted@ == lower("x-forwarded-for"@),
                texts(values@) == forwarded_values(headers@.take(i as int)),
            decreases headers.len() - i,
        {
            let name = ascii_lowercase(headers[i].name.as_str());
            assert(headers@.take(i + 1).drop_last() =~= headers@.take(i as int));
            if same_text(name.as_str(), wanted.as_str()) {
                let value = headers[i].value.clone();
                assert(texts(values@.push(value)) =~= texts(values@).push(value@));
                values.push(value);
            }
            i = i + 1;
        }
        assert(headers@.take(i as int) =~= headers@);
        assert(values@.len() == texts(values@).len());
        if values.len() == 0 {
            return None;
        }
        let forwarded_for = join(&values, ", ");
        self.validated_forwarded_client_ip(observed_peer, Some(forwarded_for.as_str()))
    }

    pub fn validated_forwarded_client_ip(
        &self,
        observed_peer: Option<&str>,
        forwarded_for: Option<&str>,
    ) -> (r: Option<String>)
        ensures
            opt_text(r) == forwarded_client(
                self.networks(),
                opt_str(observed_peer),
                opt_str(forwarded_for),
            ),
    {
        let (peer, forwarded) = match (observed_peer, forwarded_for) {
            (Some(p), Some(f)) => (p, f),
            _ => {
                return None;
            },
        };
        let parts = split(forwarded, ',');
        let mut chain: Vec<Option<Address>> = Vec::new();
        let mut i: usize = 0;
        while i < parts.len()
            invariant
                i <= parts@.len(),
                texts(parts@) == split_on(forwarded@, ','),
                chain@.len() == i,
                forall|j: int|
                    0 <= j < i ==> #[trigger] chain@[j] == parsed_address(trim_text(parts@[j]@)),
                forall|j: int| 0 <= j < i ==> ((#[trigger] chain@[j]) matches Some(a) ==> a.wf()),
            decreases parts.len() - i,
        {
            let part = trim(parts[i].as_str());
            chain.push(Address::parse(part.as_str()));
            i = i + 1;
        }
        proof {
            assert forall|j: int| 0 <= j < chain@.len() implies chain@[j] == chain_of(
                forwarded@,
            )[j] by {
                assert(split_on(forwarded@, ',')[j] == parts@[j]@);
            }
            assert(split_on(forwarded@, ',').len() == parts@.len());
            assert(chain@ =~= chain_of(forwarded@));
        }
        match self.client_from_chain(Address::parse(peer), &chain) {
            Some(address) => Some(address.display()),
            None => None,
        }
    }

    /// Decides the client address from the address of the peer and the addresses of the chain,
    /// where `None` stands for one that could not be read.
    pub fn client_from_chain(&self, peer: Option<Address>, chain: &Vec<Option<Address>>) -> (r:
        Option<Address>)
        requires
            peer matches Some(a) ==> a.wf(),
            forall|i: int| 0 <= i < chain@.len() ==> ((#[trigger] chain@[i]) matches Some(a) ==> a.wf()),
        ensures
            r == client_of(self.networks(), peer, chain@),
            r matches Some(a) ==> a.wf(),
    {
        match peer {
            Some(address) => {
                if !self.contains(&address) {
                    return None;
                }
            },
            None => {
                return None;
            },
        }
        let mut known: Vec<Address> = Vec::new();
        let mut i: usize = 0;
        while i < chain.len()
            invariant
                i <= chain@.len(),
                known@.len() == i,
                forall|j: int| 0 <= j < chain@.len() ==> ((#[trigger] chain@[j]) matches Some(a) ==> a.wf()),
                forall|j: int| 0 <= j < i ==> (#[trigger] chain@[j]) is Some,
                forall|j: int| 0 <= j < i ==> #[trigger] known@[j] == canonical(chain@[j].unwrap()),
                forall|j: int| 0 <= j < i ==> (#[trigger] known@[j]).wf(),
            decreases chain.len() - i,
        {
            match &chain[i] {
                Some(address) => {
                    assert(chain@[i as int] == Some(*address));
                    known.push(address.canonical());
                },
                None => {
                    assert(chain@[i as int] is None);
                    return None;
                },
            }
            i = i + 1;
        }
        assert(known@ =~= canonical_chain(chain@));
        let mut end: usize = known.len();
        assert(known@.take(end as int) =~= known@);
        while end > 0
            invariant
                end <= known@.len(),
                forall|j: int| 0 <= j < known@.len() ==> (#[trigger] known@[j]).wf(),
                nearest_untrusted(self.networks(), known@.take(end as int)) == client_of(
                    self.networks(),
                    peer,
                    chain@,
                ),
            decreases end,
        {
            let address = known[end - 1];
            assert(known@.take(end as int).last() == address);
            if !self.contains(&address) {
                return Some(address);
            }
            assert(known@.take(end as int).drop_last() =~= known@.take(end - 1));
            end = end - 1;
        }
        None
    }

    /// Whether a proxy network holds the address.
    pub fn contains(&self, address: &Address) -> (r: bool)
        requires
            address.wf(),
        ensures
            r == trusted(self.networks(), *address),
    {
        let canonical_address = address.canonical();
        let mut i: usize = 0;
        while i < self.proxies.len()
            invariant
                canonical_address == canonical(*address),
                canonical_address.wf(),
                i <= self.proxies@.len(),
                forall|j: int| 0 <= j < i ==> !(#[trigger] self.networks()[j]).holds(canonical(*address)),
            decreases self.proxies.len() - i,
        {
            assert(self.networks()[i as int] == self.proxies@[i as int].network());
            let proxy = &self.proxies[i];
            proof {
                use_type_invariant(proxy);
            }
            if proxy.0.contains(&canonical_address) {
                assert(self.networks()[i as int].holds(canonical(*address)));
                return true;
            }
            i = i + 1;
        }
        false
    }
}

/// Without trusted proxies no forwarded chain names a client.
pub proof fn no_proxies_no_client(peer: Option<Seq<char>>, forwarded_for: Option<Seq<char>>)
    ensures
        forwarded_client(Seq::<Network>::empty(), peer, forwarded_for) is None,
{
}

/// A peer that is not a trusted proxy cannot name a client.
pub proof fn untrusted_peer_names_no_client(
    networks: Seq<Network>,
    peer: Seq<char>,
    forwarded_for: Option<Seq<char>>,
)
    requires
        parsed_address(peer) matches Some(a) ==> !trusted(networks, a),
    ensures
        forwarded_client(networks, Some(peer), forwarded_for) is None,
{
}

/// The client found is an address of the chain that is not a trusted proxy, and every address
/// after it is one.
pub proof fn client_is_the_last_untrusted_hop(
    networks: Seq<Network>,
    peer: Option<Address>,
    chain: Seq<Option<Address>>,
)
    ensures
        client_of(networks, peer, chain) matches Some(a) ==> {
            &&& !trusted(networks, a)
            &&& exists|i: int|
                0 <= i < chain.len() && canonical((#[trigger] chain[i]).unwrap()) == a && (forall|j: int|
                    i < j < chain.len() ==> trusted(networks, canonical((#[trigger] chain[j]).unwrap())))
        },
{
    let known = canonical_chain(chain);
    lemma_nearest(networks, known);
    if let Some(a) = client_of(networks, peer, chain) {
        let i = choose|i: int|
            0 <= i < known.len() && known[i] == a && (forall|j: int|
                i < j < known.len() ==> trusted(networks, #[trigger] known[j]));
        assert(canonical(chain[i].unwrap()) == a);
        assert forall|j: int| i < j < chain.len() implies trusted(
            networks,
            canonical((#[trigger] chain[j]).unwrap()),
        ) by {
            assert(trusted(networks, known[j]));
        }
    }
}

proof fn lemma_nearest(networks: Seq<Network>, known: Seq<Address>)
    ensures
        nearest_untrusted(networks, known) matches Some(a) ==> {
            &&& !trusted(networks, a)
            &&& exists|i: int|
                0 <= i < known.len() && #[trigger] known[i] == a && (forall|j: int|
                    i < j < known.len() ==> trusted(networks, #[trigger] known[j]))
        },
    decreases known.len(),
{
    if known.len() > 0 {
        if trusted(networks, known.last()) {
            lemma_nearest(networks, known.drop_last());
            if let Some(a) = nearest_untrusted(networks, known) {
                let i = choose|i: int|
                    0 <= i < known.len() - 1 && known.drop_last()[i] == a && (forall|j: int|
                        i < j < known.len() - 1 ==> trusted(networks, #[trigger] known.drop_last()[j]));
                assert(known[i] == a);
                assert forall|j: int| i < j < known.len() implies trusted(
                    networks,
                    #[trigger] known[j],
                ) by {
                    if j < known.len() - 1 {
                        assert(known.drop_last()[j] == known[j]);
                    }
                }
            }
        } else {
            assert(known[known.len() - 1] == known.last());
        }
    }
}

#[derive(Clone, Debug)]
pub struct HttpHeader {
    pub name: String,
    pub value: String,
}

#[derive(Clone, Copy, Debug, PartialEq, Eq, Structural)]
pub enum LogSource {
    AwsWaf,
    NginxCombined,
    ApacheCombined,
    ApacheVhostCombined,
}

impl LogSource {
    /// The telemetry profile whose capabilities describe this source.
    pub open spec fn profile(self) -> TelemetryProfile {
        match self {
            LogSource::AwsWaf => TelemetryProfile::AwsWaf,
            LogSource::NginxCombined => TelemetryProfile::NginxCombined,
            LogSource::ApacheCombined => TelemetryProfile::ApacheCombined,
            LogSource::ApacheVhostCombined => TelemetryProfile::ApacheVhostCombined,
        }
    }

    pub fn telemetry_profile(self) -> (r: TelemetryProfile)
        ensures
            r == self.profile(),
    {
        match self {
            LogSource::AwsWaf => TelemetryProfile::AwsWaf,
            LogSource::NginxCombined => TelemetryProfile::NginxCombined,
            LogSource::ApacheCombined => TelemetryProfile::ApacheCombined,
            LogSource::ApacheVhostCombined => TelemetryProfile::ApacheVhostCombined,
        }
    }
}

#[derive(Clone, Copy, Debug, PartialEq, Eq, Structural)]
pub enum TelemetryProfile {
    AwsWaf,
    NginxCombined,
    ApacheCombined,
    /// Apache `other_vhosts_access.log`: Combined Log Format with the virtual host in front.
    ApacheVhostCombined,
    /// Counterfactual analysis only: nginx combined with a configured Host field.
    NginxCombinedHost,
    /// Counterfactual analysis only: a reviewed nginx security format with Host and selected
    /// request headers, but no bodies, WAF metadata or TLS fingerprints.
    NginxSecurity,
}

impl Default for TelemetryProfile {
    fn default() -> (r: Self)
        ensures
            r == TelemetryProfile::AwsWaf,
    {
        TelemetryProfile::AwsWaf
    }
}

#[derive(Clone, Copy, Debug, PartialEq, Eq, Structural)]
pub enum HeaderCapability {
    Arbitrary,
    RefererAndUserAgent,
}

/// Which observations a telemetry source can record.
#[derive(Clone, Copy, Debug, PartialEq, Eq, Structural)]
pub struct TelemetryCapabilities {
    pub timestamp: bool,
    pub source_ip: bool,
    /// Whether a verified end-client IP can be populated.
    pub client_ip: bool,
    pub host: bool,
    pub method: bool,
    pub uri_path: bool,
    pub uri_query: bool,
    pub headers: HeaderCapability,
    pub user_agent: bool,
    pub referer: bool,
    pub status: bool,
    pub response_bytes: bool,
    pub ja3: bool,
    pub ja4: bool,
    /// Whether the source records the negotiated TLS protocol version.
    pub tls_protocol: bool,
    /// Whether the source records the negotiated TLS cipher suite.
    pub tls_cipher: bool,
    pub waf_action: bool,
    pub waf_labels: bool,
    pub request_body: bool,
}

impl Default for TelemetryCapabilities {
    fn default() -> (r: Self)
        ensures
            r == TelemetryProfile::AwsWaf.records(),
    {
        TelemetryProfile::AwsWaf.capabilities()
    }
}

/// What a source can record.
pub enum Capability {
    Timestamp,
    SourceIp,
    ClientIp,
    Host,
    Method,
    UriPath,
    UriQuery,
    ArbitraryHeaders,
    UserAgent,
    Referer,
    Status,
    ResponseBytes,
    Ja3,
    Ja4,
    TlsProtocol,
    TlsCipher,
    WafAction,
    WafLabels,
    RequestBody,
}

impl TelemetryCapabilities {
    #[verifier::opaque]
    pub open spec fn has(self, c: Capability) -> bool {
        match c {
            Capability::Timestamp => self.timestamp,
            Capability::SourceIp => self.source_ip,
            Capability::ClientIp => self.client_ip,
            Capability::Host => self.host,
            Capability::Method => self.method,
            Capability::UriPath => self.uri_path,
            Capability::UriQuery => self.uri_query,
            Capability::ArbitraryHeaders => self.headers is Arbitrary,
            Capability::UserAgent => self.user_agent,
            Capability::Referer => self.referer,
            Capability::Status => self.status,
            Capability::ResponseBytes => self.response_bytes,
            Capability::Ja3 => self.ja3,
            Capability::Ja4 => self.ja4,
            Capability::TlsProtocol => self.tls_protocol,
            Capability::TlsCipher => self.tls_cipher,
            Capability::WafAction => self.waf_action,
            Capability::WafLabels => self.waf_labels,
            Capability::RequestBody => self.request_body,
        }
    }
}

/// The set of what can be recorded.
impl View for TelemetryCapabilities {
    type V = Set<Capability>;

    open spec fn view(&self) -> Set<Capability> {
        Set::new(|c: Capability| self.has(c))
    }
}

impl TelemetryCapabilities {
    /// What either of two sources can record. `union_joins_fields` says so of each field.
    pub fn union(self, other: Self) -> (r: Self)
        ensures
            r@ == self@.union(other@),
    {
        let r = self.either(other);
        assert forall|c: Capability| #[trigger] r@.contains(c) == self@.union(other@).contains(c) by {
            match c {
                Capability::Timestamp => {},
                Capability::SourceIp => {},
                Capability::ClientIp => {},
                Capability::Host => {},
                Capability::Method => {},
                Capability::UriPath => {},
                Capability::UriQuery => {},
                Capability::ArbitraryHeaders => {},
                Capability::UserAgent => {},
                Capability::Referer => {},
                Capability::Status => {},
                Capability::ResponseBytes => {},
                Capability::Ja3 => {},
                Capability::Ja4 => {},
                Capability::TlsProtocol => {},
                Capability::TlsCipher => {},
                Capability::WafAction => {},
                Capability::WafLabels => {},
                Capability::RequestBody => {},
            }
        }
        assert(r@ =~= self@.union(other@));
        r
    }

    fn either(self, other: Self) -> (r: Self)
        ensures
            r.has(Capability::Timestamp) == (self.has(Capability::Timestamp) || other.has(
                Capability::Timestamp,
            )),
            r.has(Capability::SourceIp) == (self.has(Capability::SourceIp) || other.has(
                Capability::SourceIp,
            )),
            r.has(Capability::ClientIp) == (self.has(Capability::ClientIp) || other.has(
                Capability::ClientIp,
            )),
            r.has(Capability::Host) == (self.has(Capability::Host) || other.has(
                Capability::Host,
            )),
            r.has(Capability::Method) == (self.has(Capability::Method) || other.has(
                Capability::Method,
            )),
            r.has(Capability::UriPath) == (self.has(Capability::UriPath) || other.has(
                Capability::UriPath,
            )),
            r.has(Capability::UriQuery) == (self.has(Capability::UriQuery) || other.has(
                Capability::UriQuery,
            )),
            r.has(Capability::ArbitraryHeaders) == (self.has(Capability::ArbitraryHeaders) || other.has(
                Capability::ArbitraryHeaders,
            )),
            r.has(Capability::UserAgent) == (self.has(Capability::UserAgent) || other.has(
                Capability::UserAgent,
            )),
            r.has(Capability::Referer) == (self.has(Capability::Referer) || other.has(
                Capability::Referer,
            )),
            r.has(Capability::Status) == (self.has(Capability::Status) || other.has(
                Capability::Status,
            )),
            r.has(Capability::ResponseBytes) == (self.has(Capability::ResponseBytes) || other.has(
                Capability::ResponseBytes,
            )),
            r.has(Capability::Ja3) == (self.has(Capability::Ja3) || other.has(
                Capability::Ja3,
            )),
            r.has(Capability::Ja4) == (self.has(Capability::Ja4) || other.has(
                Capability::Ja4,
            )),
            r.has(Capability::TlsProtocol) == (self.has(Capability::TlsProtocol) || other.has(
                Capability::TlsProtocol,
            )),
            r.has(Capability::TlsCipher) == (self.has(Capability::TlsCipher) || other.has(
                Capability::TlsCipher,
            )),
            r.has(Capability::WafAction) == (self.has(Capability::WafAction) || other.has(
                Capability::WafAction,
            )),
            r.has(Capability::WafLabels) == (self.has(Capability::WafLabels) || other.has(
                Capability::WafLabels,
            )),
            r.has(Capability::RequestBody) == (self.has(Capability::RequestBody) || other.has(
                Capability::RequestBody,
            )),
    {
        let r = self.joined(other);
        proof {
            capabilities_are_fields(self);
            capabilities_are_fields(other);
            capabilities_are_fields(r);
        }
        r
    }

    fn joined(self, other: Self) -> (r: Self)
        ensures
            r.timestamp == (self.timestamp || other.timestamp),
            r.source_ip == (self.source_ip || other.source_ip),
            r.client_ip == (self.client_ip || other.client_ip),
            r.host == (self.host || other.host),
            r.method == (self.method || other.method),
            r.uri_path == (self.uri_path || other.uri_path),
            r.uri_query == (self.uri_query || other.uri_query),
            r.headers is Arbitrary == (self.headers is Arbitrary || other.headers is Arbitrary),
            r.user_agent == (self.user_agent || other.user_agent),
            r.referer == (self.referer || other.referer),
            r.status == (self.status || other.status),
            r.response_bytes == (self.response_bytes || other.response_bytes),
            r.ja3 == (self.ja3 || other.ja3),
            r.ja4 == (self.ja4 || other.ja4),
            r.tls_protocol == (self.tls_protocol || other.tls_protocol),
            r.tls_cipher == (self.tls_cipher || other.tls_cipher),
            r.waf_action == (self.waf_action || other.waf_action),
            r.waf_labels == (self.waf_labels || other.waf_labels),
            r.request_body == (self.request_body || other.request_body),
    {
        let headers = match (self.headers, other.headers) {
            (HeaderCapability::Arbitrary, _) => HeaderCapability::Arbitrary,
            (_, HeaderCapability::Arbitrary) => HeaderCapability::Arbitrary,
            _ => HeaderCapability::RefererAndUserAgent,
        };
        TelemetryCapabilities {
            timestamp: self.timestamp || other.timestamp,
            source_ip: self.source_ip || other.source_ip,
            client_ip: self.client_ip || other.client_ip,
            host: self.host || other.host,
            method: self.method || other.method,
            uri_path: self.uri_path || other.uri_path,
            uri_query: self.uri_query || other.uri_query,
            headers,
            user_agent: self.user_agent || other.user_agent,
            referer: self.referer || other.referer,
            status: self.status || other.status,
            response_bytes: self.response_bytes || other.response_bytes,
            ja3: self.ja3 || other.ja3,
            ja4: self.ja4 || other.ja4,
            tls_protocol: self.tls_protocol || other.tls_protocol,
            tls_cipher: self.tls_cipher || other.tls_cipher,
            waf_action: self.waf_action || other.waf_action,
            waf_labels: self.waf_labels || other.waf_labels,
            request_body: self.request_body || other.request_body,
        }
    }
}

/// What a set holds is what its fields say.
pub proof fn capabilities_are_fields(a: TelemetryCapabilities)
    ensures
        a.has(Capability::Timestamp) == a.timestamp,
        a.has(Capability::SourceIp) == a.source_ip,
        a.has(Capability::ClientIp) == a.client_ip,
        a.has(Capability::Host) == a.host,
        a.has(Capability::Method) == a.method,
        a.has(Capability::UriPath) == a.uri_path,
        a.has(Capability::UriQuery) == a.uri_query,
        a.has(Capability::ArbitraryHeaders) == (a.headers is Arbitrary),
        a.has(Capability::UserAgent) == a.user_agent,
        a.has(Capability::Referer) == a.referer,
        a.has(Capability::Status) == a.status,
        a.has(Capability::ResponseBytes) == a.response_bytes,
        a.has(Capability::Ja3) == a.ja3,
        a.has(Capability::Ja4) == a.ja4,
        a.has(Capability::TlsProtocol) == a.tls_protocol,
        a.has(Capability::TlsCipher) == a.tls_cipher,
        a.has(Capability::WafAction) == a.waf_action,
        a.has(Capability::WafLabels) == a.waf_labels,
        a.has(Capability::RequestBody) == a.request_body,
{
    reveal(TelemetryCapabilities::has);
}

impl TelemetryCapabilities {
    #[verifier::opaque]
    spec fn agrees(self, other: Self) -> bool {
        &&& self.timestamp == other.timestamp
        &&& self.source_ip == other.source_ip
        &&& self.client_ip == other.client_ip
        &&& self.host == other.host
        &&& self.method == other.method
        &&& self.uri_path == other.uri_path
        &&& self.uri_query == other.uri_query
        &&& self.headers == other.headers
        &&& self.user_agent == other.user_agent
        &&& self.referer == other.referer
        &&& self.status == other.status
        &&& self.response_bytes == other.response_bytes
        &&& self.ja3 == other.ja3
        &&& self.ja4 == other.ja4
        &&& self.tls_protocol == other.tls_protocol
        &&& self.tls_cipher == other.tls_cipher
        &&& self.waf_action == other.waf_action
        &&& self.waf_labels == other.waf_labels
        &&& self.request_body == other.request_body
    }
}

proof fn lemma_agrees(a: TelemetryCapabilities, b: TelemetryCapabilities)
    requires
        forall|c: Capability| #[trigger] a.has(c) == b.has(c),
    ensures
        a.agrees(b),
{
    reveal(TelemetryCapabilities::agrees);
    reveal(TelemetryCapabilities::has);
    assert(a.has(Capability::Timestamp) == b.has(Capability::Timestamp));
    assert(a.has(Capability::SourceIp) == b.has(Capability::SourceIp));
    assert(a.has(Capability::ClientIp) == b.has(Capability::ClientIp));
    assert(a.has(Capability::Host) == b.has(Capability::Host));
    assert(a.has(Capability::Method) == b.has(Capability::Method));
    assert(a.has(Capability::UriPath) == b.has(Capability::UriPath));
    assert(a.has(Capability::UriQuery) == b.has(Capability::UriQuery));
    assert(a.has(Capability::ArbitraryHeaders) == b.has(Capability::ArbitraryHeaders));
    assert(a.has(Capability::UserAgent) == b.has(Capability::UserAgent));
    assert(a.has(Capability::Referer) == b.has(Capability::Referer));
    assert(a.has(Capability::Status) == b.has(Capability::Status));
    assert(a.has(Capability::ResponseBytes) == b.has(Capability::ResponseBytes));
    assert(a.has(Capability::Ja3) == b.has(Capability::Ja3));
    assert(a.has(Capability::Ja4) == b.has(Capability::Ja4));
    assert(a.has(Capability::TlsProtocol) == b.has(Capability::TlsProtocol));
    assert(a.has(Capability::TlsCipher) == b.has(Capability::TlsCipher));
    assert(a.has(Capability::WafAction) == b.has(Capability::WafAction));
    assert(a.has(Capability::WafLabels) == b.has(Capability::WafLabels));
    assert(a.has(Capability::RequestBody) == b.has(Capability::RequestBody));
}

proof fn lemma_agreement_is_equality(a: TelemetryCapabilities, b: TelemetryCapabilities)
    requires
        a.agrees(b),
    ensures
        a == b,
{
    reveal(TelemetryCapabilities::agrees);
}

/// Sets of the same capabilities are the same.
pub proof fn capabilities_are_a_set(a: TelemetryCapabilities, b: TelemetryCapabilities)
    requires
        a@ == b@,
    ensures
        a == b,
{
    assert forall|c: Capability| #[trigger] a.has(c) == b.has(c) by {
        assert(a@.contains(c) == a.has(c));
        assert(b@.contains(c) == b.has(c));
    }
    lemma_agrees(a, b);
    lemma_agreement_is_equality(a, b);
}

/// A capability is in a joined set exactly where it is in one of the two.
pub proof fn union_joins(
    a: TelemetryCapabilities,
    b: TelemetryCapabilities,
    ab: TelemetryCapabilities,
    c: Capability,
)
    requires
        ab@ == a@.union(b@),
    ensures
        ab.has(c) == (a.has(c) || b.has(c)),
{
    assert(ab@.contains(c) == (a@.contains(c) || b@.contains(c)));
}

/// A field of a joined set is set exactly where it is set in one of the two.
pub proof fn union_joins_fields(
    a: TelemetryCapabilities,
    b: TelemetryCapabilities,
    ab: TelemetryCapabilities,
)
    requires
        ab@ == a@.union(b@),
    ensures
        ab.timestamp == (a.timestamp || b.timestamp),
        ab.source_ip == (a.source_ip || b.source_ip),
        ab.client_ip == (a.client_ip || b.client_ip),
        ab.host == (a.host || b.host),
        ab.method == (a.method || b.method),
        ab.uri_path == (a.uri_path || b.uri_path),
        ab.uri_query == (a.uri_query || b.uri_query),
        ab.headers is Arbitrary == (a.headers is Arbitrary || b.headers is Arbitrary),
        ab.user_agent == (a.user_agent || b.user_agent),
        ab.referer == (a.referer || b.referer),
        ab.status == (a.status || b.status),
        ab.response_bytes == (a.response_bytes || b.response_bytes),
        ab.ja3 == (a.ja3 || b.ja3),
        ab.ja4 == (a.ja4 || b.ja4),
        ab.tls_protocol == (a.tls_protocol || b.tls_protocol),
        ab.tls_cipher == (a.tls_cipher || b.tls_cipher),
        ab.waf_action == (a.waf_action || b.waf_action),
        ab.waf_labels == (a.waf_labels || b.waf_labels),
        ab.request_body == (a.request_body || b.request_body),
{
    union_joins(a, b, ab, Capability::Timestamp);
    union_joins(a, b, ab, Capability::SourceIp);
    union_joins(a, b, ab, Capability::ClientIp);
    union_joins(a, b, ab, Capability::Host);
    union_joins(a, b, ab, Capability::Method);
    union_joins(a, b, ab, Capability::UriPath);
    union_joins(a, b, ab, Capability::UriQuery);
    union_joins(a, b, ab, Capability::ArbitraryHeaders);
    union_joins(a, b, ab, Capability::UserAgent);
    union_joins(a, b, ab, Capability::Referer);
    union_joins(a, b, ab, Capability::Status);
    union_joins(a, b, ab, Capability::ResponseBytes);
    union_joins(a, b, ab, Capability::Ja3);
    union_joins(a, b, ab, Capability::Ja4);
    union_joins(a, b, ab, Capability::TlsProtocol);
    union_joins(a, b, ab, Capability::TlsCipher);
    union_joins(a, b, ab, Capability::WafAction);
    union_joins(a, b, ab, Capability::WafLabels);
    union_joins(a, b, ab, Capability::RequestBody);
    capabilities_are_fields(a);
    capabilities_are_fields(b);
    capabilities_are_fields(ab);
}

/// Joining capabilities does not depend on the order.
pub proof fn union_ignores_order(
    a: TelemetryCapabilities,
    b: TelemetryCapabilities,
    ab: TelemetryCapabilities,
    ba: TelemetryCapabilities,
)
    requires
        ab@ == a@.union(b@),
        ba@ == b@.union(a@),
    ensures
        ab == ba,
{
    assert(ab@ =~= ba@);
    capabilities_are_a_set(ab, ba);
}

/// Joining capabilities does not depend on the grouping.
pub proof fn union_ignores_grouping(
    a: TelemetryCapabilities,
    b: TelemetryCapabilities,
    c: TelemetryCapabilities,
    ab: TelemetryCapabilities,
    bc: TelemetryCapabilities,
    left: TelemetryCapabilities,
    right: TelemetryCapabilities,
)
    requires
        ab@ == a@.union(b@),
        bc@ == b@.union(c@),
        left@ == ab@.union(c@),
        right@ == a@.union(bc@),
    ensures
        left == right,
{
    assert(left@ =~= right@);
    capabilities_are_a_set(left, right);
}

/// What a source can record stays recordable after joining another: joining the source again
/// changes nothing. In particular a set joined with itself is that set.
pub proof fn union_keeps_each_source(
    a: TelemetryCapabilities,
    b: TelemetryCapabilities,
    ab: TelemetryCapabilities,
    again: TelemetryCapabilities,
    itself: TelemetryCapabilities,
)
    requires
        ab@ == a@.union(b@),
        again@ == ab@.union(b@),
        itself@ == a@.union(a@),
    ensures
        again == ab,
        itself == a,
{
    assert(again@ =~= ab@);
    assert(itself@ =~= a@);
    capabilities_are_a_set(again, ab);
    capabilities_are_a_set(itself, a);
}

impl TelemetryProfile {
    /// What each profile records.
    pub open spec fn records(self) -> TelemetryCapabilities {
        let combined = TelemetryCapabilities {
            timestamp: true,
            source_ip: true,
            client_ip: false,
            host: false,
            method: true,
            uri_path: true,
            uri_query: true,
            headers: HeaderCapability::RefererAndUserAgent,
            user_agent: true,
            referer: true,
            status: true,
            response_bytes: true,
            ja3: false,
            ja4: false,
            tls_protocol: false,
            tls_cipher: false,
            waf_action: false,
            waf_labels: false,
            request_body: false,
        };
        match self {
            TelemetryProfile::AwsWaf => TelemetryCapabilities {
                host: true,
                headers: HeaderCapability::Arbitrary,
                response_bytes: false,
                ja3: true,
                ja4: true,
                waf_action: true,
                waf_labels: true,
                ..combined
            },
            TelemetryProfile::NginxCombined => combined,
            TelemetryProfile::ApacheCombined => combined,
            TelemetryProfile::ApacheVhostCombined => TelemetryCapabilities { host: true, ..combined },
            TelemetryProfile::NginxCombinedHost => TelemetryCapabilities { host: true, ..combined },
            TelemetryProfile::NginxSecurity => TelemetryCapabilities {
                host: true,
                headers: HeaderCapability::Arbitrary,
                ..combined
            },
        }
    }

    pub fn capabilities(self) -> (r: TelemetryCapabilities)
        ensures
            r == self.records(),
    {
        let combined = TelemetryCapabilities {
            timestamp: true,
            source_ip: true,
            client_ip: false,
            host: false,
            method: true,
            uri_path: true,
            uri_query: true,
            headers: HeaderCapability::RefererAndUserAgent,
            user_agent: true,
            referer: true,
            status: true,
            response_bytes: true,
            ja3: false,
            ja4: false,
            tls_protocol: false,
            tls_cipher: false,
            waf_action: false,
            waf_labels: false,
            request_body: false,
        };
        match self {
            TelemetryProfile::AwsWaf => TelemetryCapabilities {
                timestamp: true,
                source_ip: true,
                // A forwarded chain is usable only once a caller has configured trusted proxies,
                // so a verified client address is no capability of the profile itself.
                client_ip: false,
                host: true,
                method: true,
                uri_path: true,
                uri_query: true,
                headers: HeaderCapability::Arbitrary,
                user_agent: true,
                referer: true,
                status: true,
                response_bytes: false,
                ja3: true,
                ja4: true,
                tls_protocol: false,
                tls_cipher: false,
                waf_action: true,
                waf_labels: true,
                request_body: false,
            },
            TelemetryProfile::NginxCombined => combined,
            TelemetryProfile::ApacheCombined => combined,
            TelemetryProfile::ApacheVhostCombined => TelemetryCapabilities { host: true, ..combined },
            TelemetryProfile::NginxCombinedHost => TelemetryCapabilities { host: true, ..combined },
            TelemetryProfile::NginxSecurity => TelemetryCapabilities {
                host: true,
                headers: HeaderCapability::Arbitrary,
                ..combined
            },
        }
    }
}

/// No profile claims TLS details, request bodies or verified client addresses.
pub proof fn no_profile_overclaims(profile: TelemetryProfile)
    ensures
        !profile.records().tls_protocol,
        !profile.records().tls_cipher,
        !profile.records().request_body,
        !profile.records().client_ip,
{
}

/// A source-neutral request representation.
#[derive(Clone, Debug)]
pub struct WebEvent {
    pub timestamp: Option<Timestamp>,
    /// Observed direct connection peer. This may be a CDN, load balancer, NAT or proxy.
    pub source_ip: Option<String>,
    /// End-client IP verified from a forwarded chain under explicit trusted proxies.
    pub client_ip: Option<String>,
    pub source_port: Option<u16>,
    pub country: Option<String>,
    pub host: Option<String>,
    pub method: Option<String>,
    pub uri: Option<String>,
    pub uri_path: Option<String>,
    pub uri_query: Option<String>,
    pub uri_fragment: Option<String>,
    pub headers: Vec<HttpHeader>,
    pub user_agent: Option<String>,
    pub referer: Option<String>,
    pub status: Option<u16>,
    pub response_bytes: Option<u64>,
    pub protocol: Option<String>,
    pub request_id: Option<String>,
    pub ja3: Option<String>,
    pub ja4: Option<String>,
    /// TLS protocol version observed by the telemetry source.
    pub tls_protocol: Option<String>,
    /// TLS cipher suite observed by the telemetry source.
    pub tls_cipher: Option<String>,
    pub waf_action: Option<String>,
    pub waf_rule_id: Option<String>,
    pub waf_rule_type: Option<String>,
    pub waf_labels: Vec<String>,
    pub waf_non_terminating_rule_ids: Vec<String>,
    pub log_source: LogSource,
    /// The unmodified record, for analyst follow-up.
    pub raw: String,
}

/// The one value of an optional attribute.
pub open spec fn single_value(value: Option<String>) -> Option<Seq<Seq<char>>> {
    match value {
        Some(v) => Some(seq![v@]),
        None => None,
    }
}

pub open spec fn text_or_empty(value: Option<String>) -> Seq<char> {
    match value {
        Some(v) => v@,
        None => seq![],
    }
}

/// The lines `name: value` of the headers.
pub open spec fn header_lines(headers: Seq<HttpHeader>) -> Seq<Seq<char>> {
    headers.map_values(|h: HttpHeader| h.name@ + ": "@ + h.value@)
}

fn one(value: &Option<String>) -> (r: Option<Vec<String>>)
    ensures
        match r {
            Some(list) => single_value(*value) == Some(texts(list@)),
            None => single_value(*value) is None,
        },
{
    match value {
        Some(v) => {
            let mut list: Vec<String> = Vec::new();
            list.push(v.clone());
            assert(texts(list@) =~= seq![v@]);
            Some(list)
        },
        None => None,
    }
}

fn push_optional(s: &mut String, value: &Option<String>)
    ensures
        final(s)@ == old(s)@ + text_or_empty(*value),
{
    match value {
        Some(v) => {
            s.append(v.as_str());
        },
        None => {
            assert(s@ + Seq::<char>::empty() =~= s@);
        },
    }
}

impl WebEvent {
    /// The values of the attribute that a field name or one of its aliases stands for, whatever
    /// the ASCII case of the name.
    pub open spec fn attribute(self, field: Seq<char>) -> Option<Seq<Seq<char>>> {
        let name = lower(field);
        if name == "cs-method"@ || name == "method"@ {
            single_value(self.method)
        } else if name == "cs-uri"@ || name == "uri"@ {
            single_value(self.uri)
        } else if name == "cs-uri-stem"@ || name == "uri_path"@ {
            single_value(self.uri_path)
        } else if name == "cs-uri-query"@ || name == "uri_query"@ {
            single_value(self.uri_query)
        } else if name == "uri_fragment"@ {
            single_value(self.uri_fragment)
        } else if name == "cs-host"@ || name == "host"@ {
            single_value(self.host)
        } else if name == "cs-user-agent"@ || name == "c-useragent"@ || name == "user_agent"@ {
            single_value(self.user_agent)
        } else if name == "cs-referer"@ || name == "referer"@ {
            single_value(self.referer)
        } else if name == "c-ip"@ || name == "source_ip"@ {
            single_value(self.source_ip)
        } else if name == "client_ip"@ {
            single_value(self.client_ip)
        } else if name == "sc-status"@ || name == "status"@ {
            match self.status {
                Some(code) => Some(seq![decimal(code as nat)]),
                None => None,
            }
        } else if name == "ja3"@ {
            single_value(self.ja3)
        } else if name == "ja4"@ {
            single_value(self.ja4)
        } else if name == "tls_protocol"@ || name == "ssl_protocol"@ {
            single_value(self.tls_protocol)
        } else if name == "tls_cipher"@ || name == "ssl_cipher"@ {
            single_value(self.tls_cipher)
        } else if name == "waf_action"@ {
            single_value(self.waf_action)
        } else if name == "waf_rule_id"@ {
            single_value(self.waf_rule_id)
        } else if name == "waf_labels"@ {
            Some(texts(self.waf_labels@))
        } else {
            None
        }
    }

    pub fn field_values(&self, field: &str) -> (r: Option<Vec<String>>)
        ensures
            match r {
                Some(list) => self.attribute(field@) == Some(texts(list@)),
                None => self.attribute(field@) is None,
            },
    {
        let lowered = ascii_lowercase(field);
        let name = lowered.as_str();
        if same_text(name, "cs-method") || same_text(name, "method") {
            one(&self.method)
        } else if same_text(name, "cs-uri") || same_text(name, "uri") {
            one(&self.uri)
        } else if same_text(name, "cs-uri-stem") || same_text(name, "uri_path") {
            one(&self.uri_path)
        } else if same_text(name, "cs-uri-query") || same_text(name, "uri_query") {
            one(&self.uri_query)
        } else if same_text(name, "uri_fragment") {
            one(&self.uri_fragment)
        } else if same_text(name, "cs-host") || same_text(name, "host") {
            one(&self.host)
        } else if same_text(name, "cs-user-agent") || same_text(name, "c-useragent") || same_text(
            name,
            "user_agent",
        ) {
            one(&self.user_agent)
        } else if same_text(name, "cs-referer") || same_text(name, "referer") {
            one(&self.referer)
        } else if same_text(name, "c-ip") || same_text(name, "source_ip") {
            one(&self.source_ip)
        } else if same_text(name, "client_ip") {
            one(&self.client_ip)
        } else if same_text(name, "sc-status") || same_text(name, "status") {
            match self.status {
                Some(code) => {
                    let mut list: Vec<String> = Vec::new();
                    list.push(decimal_text(code as u64));
                    assert(texts(list@) =~= seq![decimal(code as nat)]);
                    Some(list)
                },
                None => None,
            }
        } else if same_text(name, "ja3") {
            one(&self.ja3)
        } else if same_text(name, "ja4") {
            one(&self.ja4)
        } else if same_text(name, "tls_protocol") || same_text(name, "ssl_protocol") {
            one(&self.tls_protocol)
        } else if same_text(name, "tls_cipher") || same_text(name, "ssl_cipher") {
            one(&self.tls_cipher)
        } else if same_text(name, "waf_action") {
            one(&self.waf_action)
        } else if same_text(name, "waf_rule_id") {
            one(&self.waf_rule_id)
        } else if same_text(name, "waf_labels") {
            Some(copy_texts(&self.waf_labels))
        } else {
            None
        }
    }

    /// The text that keyword searches look at: method, host and URI on a line each, a line for
    /// each header, and the raw record.
    pub open spec fn haystack(self) -> Seq<char> {
        text_or_empty(self.method).push('\n') + text_or_empty(self.host).push('\n')
            + text_or_empty(self.uri).push('\n') + join_texts(
            header_lines(self.headers@),
            seq!['\n'],
        ).push('\n') + self.raw@
    }

    pub fn keyword_haystack(&self) -> (r: String)
        ensures
            r@ == self.haystack(),
    {
        let mut r = String::new();
        push_optional(&mut r, &self.method);
        r.push('\n');
        push_optional(&mut r, &self.host);
        r.push('\n');
        push_optional(&mut r, &self.uri);
        r.push('\n');
        let ghost start = r@;
        let ghost lines = header_lines(self.headers@);
        assert(start =~= text_or_empty(self.method).push('\n') + text_or_empty(self.host).push('\n')
            + text_or_empty(self.uri).push('\n'));
        let mut i: usize = 0;
        assert(start + join_texts(lines.take(0), seq!['\n']) =~= start);
        while i < self.headers.len()
            invariant
                i <= self.headers@.len(),
                lines == header_lines(self.headers@),
                r@ == start + join_texts(lines.take(i as int), seq!['\n']),
            decreases self.headers.len() - i,
        {
            proof {
                assert(lines.take(i + 1).drop_last() =~= lines.take(i as int));
            }
            if i > 0 {
                r.push('\n');
            }
            r.append(self.headers[i].name.as_str());
            r.append(": ");
            r.append(self.headers[i].value.as_str());
            proof {
                let before = join_texts(lines.take(i as int), seq!['\n']);
                let after = join_texts(lines.take(i + 1), seq!['\n']);
                if i > 0 {
                    assert(after == before + seq!['\n'] + lines[i as int]);
                } else {
                    assert(before =~= Seq::<char>::empty());
                    assert(after == lines[i as int]);
                }
                assert(r@ =~= start + after);
            }
            i = i + 1;
        }
        assert(lines.take(i as int) =~= lines);
        r.push('\n');
        r.append(self.raw.as_str());
        assert(r@ =~= self.haystack());
        r
    }
}

/// A copy of a list of strings.
pub fn copy_texts(list: &Vec<String>) -> (r: Vec<String>)
    ensures
        texts(r@) == texts(list@),
        r@ =~= list@,
{
    let mut r: Vec<String> = Vec::new();
    let mut i: usize = 0;
    while i < list.len()
        invariant
            i <= list@.len(),
            r@ =~= list@.take(i as int),
        decreases list.len() - i,
    {
        r.push(list[i].clone());
        i = i + 1;
    }
    r
}

} // verus!
