//! The services that a working directory asks ports for.

use vstd::prelude::*;

use crate::text;
use crate::text::{chars_of, find_from, not_after, parse_port};

verus! {

/// A service that asks for a port.
#[derive(Debug)]
pub struct ServiceRequest {
    pub name: String,
    pub default_port: u16,
    pub scheme: Option<String>,
    pub env_name: Option<String>,
}

/// A port entry of the configuration file.
#[derive(Debug)]
pub struct PortConfig {
    pub default_port: u16,
    pub protocol: Option<String>,
    pub env_name: Option<String>,
}

/// A service request, with texts for its strings.
pub struct RequestView {
    pub name: Seq<char>,
    pub default_port: u16,
    pub scheme: Option<Seq<char>>,
    pub env_name: Option<Seq<char>>,
}

impl View for ServiceRequest {
    type V = RequestView;

    open spec fn view(&self) -> RequestView {
        RequestView {
            name: self.name@,
            default_port: self.default_port,
            scheme: text::opt_text(self.scheme),
            env_name: text::opt_text(self.env_name),
        }
    }
}

/// The requests of a list.
pub open spec fn request_views(requests: Seq<ServiceRequest>) -> Seq<RequestView> {
    requests.map_values(|r: ServiceRequest| r@)
}

/// A service that was not written as `service:port[:scheme]`.
#[derive(Debug)]
pub enum SpecError {
    /// There is no `:` in it.
    Shape { spec: String },
    /// The second part is not a port.
    Port { spec: String, port: String },
}

/// What a text `service:port[:scheme]` asks for.
pub enum SpecOutcome {
    Request(RequestView),
    Shape,
    Port(Seq<char>),
}

/// Reads `service:port[:scheme]`. The service ends at the first `:`, the port
/// at the second one, and the scheme is all that follows.
pub open spec fn spec_outcome(spec: Seq<char>) -> SpecOutcome {
    match text::find(spec, seq![':']) {
        None => SpecOutcome::Shape,
        Some(i) => {
            let rest = spec.skip(i + 1);
            let (port, scheme) = match text::find(rest, seq![':']) {
                None => (rest, None),
                Some(j) => (rest.take(j), Some(rest.skip(j + 1))),
            };
            match text::port_value(port) {
                Some(p) => SpecOutcome::Request(
                    RequestView { name: spec.take(i), default_port: p, scheme, env_name: None },
                ),
                None => SpecOutcome::Port(port),
            }
        },
    }
}

impl SpecError {
    /// The outcome that the error stands for.
    pub open spec fn outcome(&self) -> SpecOutcome {
        match *self {
            SpecError::Shape { spec } => SpecOutcome::Shape,
            SpecError::Port { spec, port } => SpecOutcome::Port(port@),
        }
    }

    /// The text that was refused.
    pub open spec fn spec_text(&self) -> Seq<char> {
        match *self {
            SpecError::Shape { spec } => spec@,
            SpecError::Port { spec, port } => spec@,
        }
    }

    /// The text of the error.
    pub open spec fn message_text(&self) -> Seq<char> {
        match *self {
            SpecError::Shape { spec } => "expected service:port[:scheme], got '"@ + spec@ + "'"@,
            SpecError::Port { spec, port } => "invalid port in '"@ + spec@ + "'"@,
        }
    }

    /// The error in words.
    pub fn message(&self) -> (r: String)
        ensures
            r@ == self.message_text(),
    {
        match self {
            SpecError::Shape { spec } => {
                let mut out = "expected service:port[:scheme], got '".to_owned();
                out.append(spec.as_str());
                out.append("'");
                out
            },
            SpecError::Port { spec, port: _ } => {
                let mut out = "invalid port in '".to_owned();
                out.append(spec.as_str());
                out.append("'");
                out
            },
        }
    }
}

/// The uppercase form of a text, as `str::to_uppercase` gives it.
pub uninterp spec fn uppercase(s: Seq<char>) -> Seq<char>;

/// Whether every character of `s` is an ASCII character.
pub open spec fn is_ascii_text(s: Seq<char>) -> bool {
    forall|i: int| 0 <= i < s.len() ==> (#[trigger] s[i] as u32) < 128
}

/// `s` with the letters `a` to `z` mapped to `A` to `Z`.
pub open spec fn ascii_uppercase(s: Seq<char>) -> Seq<char> {
    s.map_values(
        |c: char|
            if 'a' <= c && c <= 'z' {
                (c as u32 - 32) as char
            } else {
                c
            },
    )
}

/// Calls `str::to_uppercase`. Its result, by the Unicode case tables, is a
/// function of the text alone, named `uppercase`; an ASCII text has its
/// letters `a` to `z` mapped to `A` to `Z` and nothing else changed.
#[verifier::external_body]
fn to_uppercase(s: &str) -> (r: String)
    ensures
        r@ == uppercase(s@),
        is_ascii_text(s@) ==> r@ == ascii_uppercase(s@),
{
    s.to_uppercase()
}

/// `s` with every `-` replaced by `_`.
pub open spec fn underscored(s: Seq<char>) -> Seq<char> {
    s.map_values(
        |c: char|
            if c == '-' {
                '_'
            } else {
                c
            },
    )
}

/// Replaces every `-` by `_`.
pub fn with_underscores(s: &str) -> (r: String)
    ensures
        r@ == underscored(s@),
{
    let cs = chars_of(s);
    let dash: [char; 1] = ['-'];
    assert(dash@ =~= seq!['-']);
    proof {
        reveal_strlit("_");
    }
    let mut out = String::new();
    let mut at: usize = 0;
    loop
        invariant
            cs@ == s@,
            dash@ == seq!['-'],
            "_"@ == seq!['_'],
            at <= cs@.len(),
            out@ == underscored(s@.take(at as int)),
        decreases cs@.len() - at,
    {
        let ghost left = cs@.skip(at as int);
        proof {
            text::char_found_iff_contained(left, '-');
        }
        match find_from(&cs, &dash, at) {
            Some(i) => {
                out.append(s.substring_char(at, i));
                out.append("_");
                proof {
                    assert(left[i - at] == cs@[i as int]);
                    assert forall|k: int| at <= k < i implies s@[k] != '-' by {
                        assert(left.take(i - at)[k - at] == s@[k]);
                    }
                    assert(out@ =~= underscored(s@.take(i + 1)));
                }
                at = i + 1;
            },
            None => {
                out.append(s.substring_char(at, cs.len()));
                proof {
                    assert forall|k: int| at <= k < s@.len() implies s@[k] != '-' by {
                        assert(left[k - at] == s@[k]);
                    }
                    assert(out@ =~= underscored(s@));
                }
                return out;
            },
        }
    }
}

/// The name that a service's variables are made of: the one that was
/// configured, else the service's own.
pub open spec fn variable_base(r: RequestView) -> Seq<char> {
    match r.env_name {
        Some(n) => n,
        None => r.name,
    }
}

/// The prefix of a service's variables.
pub open spec fn prefix_text(r: RequestView) -> Seq<char> {
    underscored(uppercase(variable_base(r)))
}

impl ServiceRequest {
    /// Reads a service as it is given on the command line.
    pub fn from_spec(spec: &str) -> (r: Result<Self, SpecError>)
        ensures
            match r {
                Ok(request) => spec_outcome(spec@) == SpecOutcome::Request(request@),
                Err(e) => e.outcome() == spec_outcome(spec@) && !(e.outcome() is Request)
                    && e.spec_text() == spec@,
            },
    {
        let cs = chars_of(spec);
        let colon: [char; 1] = [':'];
        assert(colon@ =~= seq![':']);
        assert(cs@.skip(0) =~= cs@);
        let first = match find_from(&cs, &colon, 0) {
            Some(i) => i,
            None => {
                return Err(SpecError::Shape { spec: spec.to_owned() });
            },
        };
        let (port_end, scheme) = match find_from(&cs, &colon, first + 1) {
            Some(j) => (j, Some(spec.substring_char(j + 1, cs.len()).to_owned())),
            None => (cs.len(), None),
        };
        let name = spec.substring_char(0, first);
        let port = spec.substring_char(first + 1, port_end);
        proof {
            let rest = spec@.skip(first + 1);
            assert(name@ =~= spec@.take(first as int));
            match text::find(rest, seq![':']) {
                Some(j) => {
                    assert(port@ =~= rest.take(j));
                    assert(text::opt_text(scheme)->0 =~= rest.skip(j + 1));
                },
                None => {
                    assert(port@ =~= rest);
                },
            }
        }
        match parse_port(port) {
            Some(default_port) => Ok(
                ServiceRequest { name: name.to_owned(), default_port, scheme, env_name: None },
            ),
            None => Err(SpecError::Port { spec: spec.to_owned(), port: port.to_owned() }),
        }
    }

    /// The prefix of the variables that carry this service's port.
    pub fn env_prefix(&self) -> (r: String)
        ensures
            r@ == prefix_text(self@),
            is_ascii_text(variable_base(self@)) ==> r@ == underscored(
                ascii_uppercase(variable_base(self@)),
            ),
    {
        let base = match &self.env_name {
            Some(n) => n.as_str(),
            None => self.name.as_str(),
        };
        with_underscores(to_uppercase(base).as_str())
    }
}

/// Reads the services of a command line; the first one that cannot be read
/// decides.
pub fn parse_specs(specs: &Vec<String>) -> (r: Result<Vec<ServiceRequest>, SpecError>)
    ensures
        match r {
            Ok(requests) => requests@.len() == specs@.len() && forall|i: int|
                0 <= i < specs@.len() ==> spec_outcome(#[trigger] specs@[i]@)
                    == SpecOutcome::Request(requests@[i]@),
            Err(e) => exists|i: int|
                {
                    &&& 0 <= i < specs@.len()
                    &&& spec_outcome(#[trigger] specs@[i]@) == e.outcome()
                    &&& !(e.outcome() is Request)
                    &&& e.spec_text() == specs@[i]@
                    &&& forall|j: int|
                        0 <= j < i ==> spec_outcome(#[trigger] specs@[j]@) is Request
                },
        },
{
    let mut out: Vec<ServiceRequest> = Vec::new();
    for i in 0..specs.len()
        invariant
            out@.len() == i,
            forall|j: int|
                0 <= j < i ==> spec_outcome(#[trigger] specs@[j]@) == SpecOutcome::Request(
                    out@[j]@,
                ),
    {
        match ServiceRequest::from_spec(specs[i].as_str()) {
            Ok(request) => out.push(request),
            Err(e) => {
                assert(spec_outcome(specs@[i as int]@) == e.outcome());
                return Err(e);
            },
        }
    }
    Ok(out)
}

/// The request that a port entry makes.
pub open spec fn configured(entry: (String, PortConfig)) -> RequestView {
    RequestView {
        name: entry.0@,
        default_port: entry.1.default_port,
        scheme: text::opt_text(entry.1.protocol),
        env_name: text::opt_text(entry.1.env_name),
    }
}

/// Whether the requests are in order of their names.
pub open spec fn in_name_order(requests: Seq<RequestView>) -> bool {
    forall|i: int, j: int|
        0 <= i < j < requests.len() ==> text::text_le(
            #[trigger] requests[i].name,
            #[trigger] requests[j].name,
        )
}

/// Whether no two requests have one name.
pub open spec fn distinct_names(requests: Seq<RequestView>) -> bool {
    forall|i: int, j: int|
        0 <= i < j < requests.len() ==> #[trigger] requests[i].name != #[trigger] requests[j].name
}

/// Turns the port entries of a configuration into requests, in order of their
/// names.
pub fn requests_from_ports(ports: Vec<(String, PortConfig)>) -> (r: Vec<ServiceRequest>)
    ensures
        in_name_order(request_views(r@)),
        request_views(r@).to_multiset() == ports@.map_values(
            |e: (String, PortConfig)| configured(e),
        ).to_multiset(),
{
    let mut ports = ports;
    let mut out: Vec<ServiceRequest> = Vec::new();
    let ghost given = ports@;
    let ghost asked = given.map_values(|e: (String, PortConfig)| configured(e));
    proof {
        assert(request_views(out@) =~= Seq::<RequestView>::empty());
        assert(asked.skip(asked.len() as int) =~= Seq::<RequestView>::empty());
        assert(given.take(given.len() as int) =~= given);
    }
    while ports.len() > 0
        invariant
            ports@.len() <= given.len(),
            ports@ == given.take(ports@.len() as int),
            asked == given.map_values(|e: (String, PortConfig)| configured(e)),
            in_name_order(request_views(out@)),
            request_views(out@).to_multiset() == asked.skip(ports@.len() as int).to_multiset(),
        decreases ports@.len(),
    {
        let ghost n = ports@.len() as int;
        let (name, config) = match ports.pop() {
            Some(e) => e,
            None => {
                return out;
            },
        };
        let request = ServiceRequest {
            name,
            default_port: config.default_port,
            scheme: config.protocol,
            env_name: config.env_name,
        };
        let ghost before = request_views(out@);
        let mut at: usize = 0;
        while at < out.len() && !not_after(request.name.as_str(), out[at].name.as_str())
            invariant
                at <= out@.len(),
                before == request_views(out@),
                forall|j: int|
                    0 <= j < at ==> !text::text_le(request.name@, #[trigger] before[j].name),
            decreases out@.len() - at,
        {
            assert(before[at as int].name == out@[at as int].name@);
            at += 1;
        }
        let ghost new = request@;
        proof {
            if at < out@.len() {
                assert(before[at as int].name == out@[at as int].name@);
            }
        }
        out.insert(at, request);
        proof {
            let after = request_views(out@);
            assert(after =~= before.insert(at as int, new));
            insertion_keeps_order(before, new, at as int);
            before.insert_ensures(at as int, new);
            vstd::seq_lib::to_multiset_insert(before, at as int, new);
            assert(given[n - 1] == given.take(n)[n - 1]);
            let tail = asked.skip(n);
            assert(asked[n - 1] == new);
            assert(asked.skip(n - 1) =~= tail.insert(0, new));
            vstd::seq_lib::to_multiset_insert(tail, 0, new);
            assert(ports@ =~= given.take(n - 1));
        }
    }
    assert(asked.skip(0) =~= asked);
    out
}

/// A request put in front of the first one that it does not come after keeps
/// the order.
proof fn insertion_keeps_order(requests: Seq<RequestView>, new: RequestView, at: int)
    requires
        in_name_order(requests),
        0 <= at <= requests.len(),
        forall|j: int| 0 <= j < at ==> !text::text_le(new.name, #[trigger] requests[j].name),
        at < requests.len() ==> text::text_le(new.name, requests[at].name),
    ensures
        in_name_order(requests.insert(at, new)),
{
    let after = requests.insert(at, new);
    assert forall|i: int, j: int| 0 <= i < j < after.len() implies text::text_le(
        #[trigger] after[i].name,
        #[trigger] after[j].name,
    ) by {
        let old_i = if i < at {
            i
        } else {
            i - 1
        };
        let old_j = if j < at {
            j
        } else {
            j - 1
        };
        if i == at {
            assert(after[j] == requests[old_j]);
            if old_j > at {
                assert(text::text_le(requests[at].name, requests[old_j].name));
                text::text_le_is_transitive(new.name, requests[at].name, requests[old_j].name);
            }
        } else if j == at {
            assert(after[i] == requests[i]);
            text::text_le_is_total(new.name, requests[i].name);
        } else {
            assert(after[i] == requests[old_i] && after[j] == requests[old_j]);
        }
    }
}

/// Requests with distinct names have one order only: the order in which the
/// entries of a configuration are met does not show in the requests made of
/// them.
pub proof fn name_order_is_unique(a: Seq<RequestView>, b: Seq<RequestView>)
    requires
        in_name_order(a),
        in_name_order(b),
        a.to_multiset() == b.to_multiset(),
        distinct_names(a),
    ensures
        a == b,
    decreases a.len(),
{
    broadcast use vstd::seq_lib::group_to_multiset_ensures;

    a.to_multiset_ensures();
    b.to_multiset_ensures();
    assert(a.len() == b.len());
    if a.len() > 0 {
        let x = a[0];
        let y = b[0];
        assert(a.contains(y)) by {
            assert(b.contains(y));
            assert(b.to_multiset().count(y) > 0);
        }
        assert(b.contains(x)) by {
            assert(a.contains(x));
            assert(a.to_multiset().count(x) > 0);
        }
        let i = choose|i: int| 0 <= i < a.len() && a[i] == y;
        let j = choose|j: int| 0 <= j < b.len() && b[j] == x;
        text::text_le_is_reflexive(x.name);
        assert(text::text_le(x.name, y.name)) by {
            if i > 0 {
                assert(text::text_le(a[0].name, a[i].name));
            }
        }
        assert(text::text_le(y.name, x.name)) by {
            if j > 0 {
                assert(text::text_le(b[0].name, b[j].name));
            }
        }
        text::text_le_is_antisymmetric(x.name, y.name);
        if i > 0 {
            assert(a[0].name != a[i].name);
        }
        assert(x == y);
        let ta = a.skip(1);
        let tb = b.skip(1);
        assert(ta =~= a.remove(0));
        assert(tb =~= b.remove(0));
        vstd::seq_lib::to_multiset_remove(a, 0);
        vstd::seq_lib::to_multiset_remove(b, 0);
        assert forall|p: int, q: int| 0 <= p < q < ta.len() implies text::text_le(
            #[trigger] ta[p].name,
            #[trigger] ta[q].name,
        ) && ta[p].name != ta[q].name by {
            assert(ta[p] == a[p + 1] && ta[q] == a[q + 1]);
        }
        assert forall|p: int, q: int| 0 <= p < q < tb.len() implies text::text_le(
            #[trigger] tb[p].name,
            #[trigger] tb[q].name,
        ) by {
            assert(tb[p] == b[p + 1] && tb[q] == b[q + 1]);
        }
        name_order_is_unique(ta, tb);
        assert(a =~= seq![x] + ta);
        assert(b =~= seq![y] + tb);
    } else {
        assert(a =~= b);
    }
}

/// A service written as `service:port`, or as `service:port:scheme`, reads
/// back as that service, that port and that scheme.
pub proof fn written_service_reads_back(name: Seq<char>, port: u16, scheme: Option<Seq<char>>)
    requires
        !name.contains(':'),
    ensures
        spec_outcome(
            name + seq![':'] + text::decimal(port as nat) + (match scheme {
                Some(s) => seq![':'] + s,
                None => Seq::empty(),
            }),
        ) == SpecOutcome::Request(
            RequestView { name, default_port: port, scheme, env_name: None },
        ),
{
    let digits = text::decimal(port as nat);
    let tail = match scheme {
        Some(s) => seq![':'] + s,
        None => Seq::empty(),
    };
    let spec = name + seq![':'] + digits + tail;
    let n = name.len() as int;
    text::char_occurs_at(spec, ':', n);
    assert forall|j: int| 0 <= j < n implies !text::occurs_at(spec, seq![':'], j) by {
        text::char_occurs_at(spec, ':', j);
        assert(spec[j] == name[j]);
    }
    text::lowest_is_found(spec, seq![':'], n);
    let rest = spec.skip(n + 1);
    assert(rest =~= digits + tail);
    assert(spec.take(n) =~= name);
    text::decimal_writes_value(port as nat);
    text::port_reads_back(port);
    let d = digits.len() as int;
    match scheme {
        Some(s) => {
            text::char_occurs_at(rest, ':', d);
            assert forall|j: int| 0 <= j < d implies !text::occurs_at(rest, seq![':'], j) by {
                text::char_occurs_at(rest, ':', j);
                assert(text::is_digit(digits[j]));
            }
            text::lowest_is_found(rest, seq![':'], d);
            assert(rest.take(d) =~= digits);
            assert(rest.skip(d + 1) =~= s);
        },
        None => {
            assert(rest =~= digits);
            text::char_found_iff_contained(rest, ':');
            if rest.contains(':') {
                let j = choose|j: int| 0 <= j < rest.len() && rest[j] == ':';
                assert(text::is_digit(digits[j]));
            }
        },
    }
}

/// The prefix of a service's variables holds no `-`.
pub proof fn prefix_has_no_dash(r: RequestView)
    ensures
        !prefix_text(r).contains('-'),
{
    let base = uppercase(variable_base(r));
    if prefix_text(r).contains('-') {
        let i = choose|i: int| 0 <= i < prefix_text(r).len() && prefix_text(r)[i] == '-';
        assert(prefix_text(r)[i] == underscored(base)[i]);
    }
}

/// A text without `:` asks for nothing.
pub proof fn spec_without_colon_is_refused(spec: Seq<char>)
    requires
        !spec.contains(':'),
    ensures
        spec_outcome(spec) is Shape,
{
    text::char_found_iff_contained(spec, ':');
}

/// What stands in front of the first `:` is the service, what stands in front
/// of the second the port, and what follows, `:` and all, the scheme; a port
/// that is no port number is named.
pub proof fn spec_is_read_by_its_parts(name: Seq<char>, port: Seq<char>, scheme: Seq<char>)
    requires
        !name.contains(':'),
        !port.contains(':'),
    ensures
        spec_outcome(name + seq![':'] + port) == (match text::port_value(port) {
            Some(p) => SpecOutcome::Request(
                RequestView { name, default_port: p, scheme: None, env_name: None },
            ),
            None => SpecOutcome::Port(port),
        }),
        spec_outcome(name + seq![':'] + port + seq![':'] + scheme) == (match text::port_value(
            port,
        ) {
            Some(p) => SpecOutcome::Request(
                RequestView { name, default_port: p, scheme: Some(scheme), env_name: None },
            ),
            None => SpecOutcome::Port(port),
        }),
{
    let long = port + seq![':'] + scheme;
    colon_ends_the_part(name, port);
    colon_ends_the_part(name, long);
    colon_ends_the_part(port, scheme);
    text::char_found_iff_contained(port, ':');
    assert(name + seq![':'] + port + seq![':'] + scheme =~= name + seq![':'] + long);
}

proof fn colon_ends_the_part(part: Seq<char>, rest: Seq<char>)
    requires
        !part.contains(':'),
    ensures
        text::find(part + seq![':'] + rest, seq![':']) == Some(part.len() as int),
        (part + seq![':'] + rest).take(part.len() as int) == part,
        (part + seq![':'] + rest).skip(part.len() as int + 1) == rest,
{
    let s = part + seq![':'] + rest;
    let n = part.len() as int;
    text::char_occurs_at(s, ':', n);
    assert forall|j: int| 0 <= j < n implies !text::occurs_at(s, seq![':'], j) by {
        text::char_occurs_at(s, ':', j);
        assert(s[j] == part[j]);
    }
    text::lowest_is_found(s, seq![':'], n);
    assert(s.take(n) =~= part);
    assert(s.skip(n + 1) =~= rest);
}

/// The prefix of a service's variables is the configured name, else the
/// service's, in upper case, with `_` in the place of each `-` and every other
/// character kept.
pub proof fn prefix_is_the_name_in_upper_case(r: RequestView, i: int)
    ensures
        ({
            let upper = uppercase(
                match r.env_name {
                    Some(n) => n,
                    None => r.name,
                },
            );
            &&& prefix_text(r).len() == upper.len()
            &&& 0 <= i < upper.len() ==> prefix_text(r)[i] == (if upper[i] == '-' {
                '_'
            } else {
                upper[i]
            })
        }),
{
}

/// A port entry makes a request of its own name, port, protocol and variable
/// name.
pub proof fn entry_is_asked_for_as_configured(entry: (String, PortConfig))
    ensures
        configured(entry).name == entry.0@,
        configured(entry).default_port == entry.1.default_port,
        match entry.1.protocol {
            Some(p) => configured(entry).scheme == Some(p@),
            None => configured(entry).scheme is None,
        },
        match entry.1.env_name {
            Some(n) => configured(entry).env_name == Some(n@),
            None => configured(entry).env_name is None,
        },
{
}

/// A refusal stands for its outcome, and its message quotes the whole text
/// that was refused.
pub proof fn refusal_quotes_the_spec(e: SpecError)
    ensures
        match e {
            SpecError::Shape { spec } => e.outcome() is Shape && e.spec_text() == spec@,
            SpecError::Port { spec, port } => e.outcome() == SpecOutcome::Port(port@)
                && e.spec_text() == spec@,
        },
        e is Shape ==> e.message_text() == "expected service:port[:scheme], got '"@ + e.spec_text()
            + "'"@,
        e is Port ==> e.message_text() == "invalid port in '"@ + e.spec_text() + "'"@,
{
}

/// A list of requests is seen entry by entry, in the same order, with every
/// field as it is.
pub proof fn requests_are_seen_as_they_are(requests: Seq<ServiceRequest>, i: int)
    requires
        0 <= i < requests.len(),
    ensures
        request_views(requests).len() == requests.len(),
        request_views(requests)[i].name == requests[i].name@,
        request_views(requests)[i].default_port == requests[i].default_port,
        match requests[i].scheme {
            Some(s) => request_views(requests)[i].scheme == Some(s@),
            None => request_views(requests)[i].scheme is None,
        },
        match requests[i].env_name {
            Some(n) => request_views(requests)[i].env_name == Some(n@),
            None => request_views(requests)[i].env_name is None,
        },
{
}

/// The upper case of an ASCII text, character by character: the letters `a` to
/// `z` become `A` to `Z`, and nothing else changes.
pub proof fn ascii_upper_case_is_letter_by_letter(s: Seq<char>, i: int)
    ensures
        is_ascii_text(s) <==> forall|k: int| 0 <= k < s.len() ==> #[trigger] s[k] as u32 <= 127,
        ascii_uppercase(s).len() == s.len(),
        0 <= i < s.len() && 'a' <= s[i] && s[i] <= 'z' ==> ascii_uppercase(s)[i] as u32
            == s[i] as u32 - ('a' as u32 - 'A' as u32),
        0 <= i < s.len() && !('a' <= s[i] && s[i] <= 'z') ==> ascii_uppercase(s)[i] == s[i],
{
}

} // verus!
