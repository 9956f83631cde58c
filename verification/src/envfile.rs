//! The environment file of a working directory.

use vstd::prelude::*;

use crate::display;
use crate::display::web_scheme;
use crate::interpolate;
use crate::interpolate::{interpolate_env_value, InterpolateError, Interpolation};
use crate::request;
use crate::request::{RequestView, ServiceRequest};
use crate::strmap;
use crate::strmap::StrMap;
use crate::text;
use crate::text::{decimal_text, join_lines};

verus! {

/// Where an environment file is written.
#[derive(Debug)]
pub enum EnvFilePlace<P> {
    /// At the path as it stands.
    AsGiven(P),
    /// At the path, taken from the directory of the configuration.
    BesideConfig(P),
    /// At the default place in the working directory.
    Default,
}

/// Where the environment file is written: at the path of the flag, else at
/// the configured one, which is taken from the directory of the configuration
/// unless it is absolute, else at the default place.
pub fn env_file_place<P>(flag: Option<P>, configured: Option<P>, absolute: bool) -> (r: EnvFilePlace<
    P,
>)
    ensures
        r == (match (flag, configured) {
            (Some(path), _) => EnvFilePlace::AsGiven(path),
            (None, Some(path)) => if absolute {
                EnvFilePlace::AsGiven(path)
            } else {
                EnvFilePlace::BesideConfig(path)
            },
            (None, None) => EnvFilePlace::Default,
        }),
{
    match flag {
        Some(path) => EnvFilePlace::AsGiven(path),
        None => match configured {
            Some(path) => if absolute {
                EnvFilePlace::AsGiven(path)
            } else {
                EnvFilePlace::BesideConfig(path)
            },
            None => EnvFilePlace::Default,
        },
    }
}

/// Whether a request is for a web service.
pub open spec fn is_web(r: RequestView) -> bool {
    match r.scheme {
        Some(s) => display::is_web_scheme(s),
        None => false,
    }
}

/// The name of the variable that holds a service's port: the configured name,
/// else the service's prefix with `_PORT` behind it.
pub open spec fn port_variable(r: RequestView) -> Seq<char> {
    match r.env_name {
        Some(name) => request::underscored(request::uppercase(name)),
        None => request::prefix_text(r) + "_PORT"@,
    }
}

/// The name of the variable that holds a web service's URL: the prefix, made
/// of the configured name where there is one, with `_URL` behind it.
pub open spec fn url_variable(r: RequestView) -> Seq<char> {
    request::prefix_text(r) + "_URL"@
}

/// The URL of a web service on this host.
pub open spec fn local_url(scheme: Seq<char>, port: u16) -> Seq<char> {
    scheme + "://127.0.0.1:"@ + text::decimal(port as nat)
}

/// The lines of a service: its port, a remark where that is not the default,
/// and its URL where it has one.
pub open spec fn service_lines(r: RequestView, port: u16) -> Seq<Seq<char>> {
    let number = seq![port_variable(r) + "="@ + text::decimal(port as nat)];
    let remark = if r.default_port != port {
        seq![
            "# ^ "@ + r.name + " default "@ + text::decimal(r.default_port as nat) + ", allocated "@
                + text::decimal(port as nat),
        ]
    } else {
        Seq::empty()
    };
    let url = if is_web(r) {
        seq![url_variable(r) + "="@ + local_url(r.scheme->0, port)]
    } else {
        Seq::empty()
    };
    number + remark + url
}

/// The lines of the services, in the order of the requests.
pub open spec fn all_service_lines(
    requests: Seq<RequestView>,
    ports: Map<Seq<char>, u16>,
) -> Seq<Seq<char>>
    decreases requests.len(),
{
    if requests.len() == 0 {
        Seq::empty()
    } else {
        let r = requests.last();
        all_service_lines(requests.drop_last(), ports) + service_lines(r, ports[r.name])
    }
}

/// The variables of the services, which custom values can refer to. Of two
/// variables with one name, the later counts.
pub open spec fn service_variables(
    requests: Seq<RequestView>,
    ports: Map<Seq<char>, u16>,
) -> Map<Seq<char>, Seq<char>>
    decreases requests.len(),
{
    if requests.len() == 0 {
        Map::empty()
    } else {
        let r = requests.last();
        let port = ports[r.name];
        let known = service_variables(requests.drop_last(), ports).insert(
            port_variable(r),
            text::decimal(port as nat),
        );
        if is_web(r) {
            known.insert(url_variable(r), local_url(r.scheme->0, port))
        } else {
            known
        }
    }
}

/// What becomes of the custom variables.
pub enum CustomOutcome {
    /// Their lines.
    Lines(Seq<Seq<char>>),
    /// The first one that cannot be resolved.
    Failed { key: Seq<char>, value: Seq<char>, why: Interpolation },
}

/// The lines of the custom variables, with their references resolved.
pub open spec fn custom_lines(
    custom: Seq<(Seq<char>, Seq<char>)>,
    known: Map<Seq<char>, Seq<char>>,
) -> CustomOutcome
    decreases custom.len(),
{
    if custom.len() == 0 {
        CustomOutcome::Lines(Seq::empty())
    } else {
        match custom_lines(custom.drop_last(), known) {
            CustomOutcome::Lines(lines) => {
                let (key, value) = custom.last();
                match interpolate::interpolation(value, known) {
                    Interpolation::Text(t) => CustomOutcome::Lines(lines.push(key + "="@ + t)),
                    why => CustomOutcome::Failed { key, value, why },
                }
            },
            failed => failed,
        }
    }
}

/// The lines in front of the custom variables.
pub open spec fn fixed_lines(
    dir: Seq<char>,
    requests: Seq<RequestView>,
    ports: Map<Seq<char>, u16>,
) -> Seq<Seq<char>> {
    seq!["# Generated by dpcp — do not edit by hand"@, "# Working directory: "@ + dir]
        + all_service_lines(requests, ports)
}

/// What becomes of an environment file.
pub enum EnvFileOutcome {
    /// Its text.
    Text(Seq<char>),
    /// The first custom variable that cannot be resolved.
    Failed { key: Seq<char>, value: Seq<char>, why: Interpolation },
}

/// The environment file of a working directory: a header, the lines of the
/// services, and the custom variables, where there are any, under a heading.
/// Every line ends with a line feed.
pub open spec fn env_file(
    dir: Seq<char>,
    requests: Seq<RequestView>,
    ports: Map<Seq<char>, u16>,
    custom: Seq<(Seq<char>, Seq<char>)>,
) -> EnvFileOutcome {
    let fixed = fixed_lines(dir, requests, ports);
    if custom.len() == 0 {
        EnvFileOutcome::Text(text::joined(fixed.push(Seq::empty())))
    } else {
        match custom_lines(custom, service_variables(requests, ports)) {
            CustomOutcome::Lines(lines) => EnvFileOutcome::Text(
                text::joined(
                    (fixed.push(Seq::empty()).push("# Custom environment variables"@)
                        + lines).push(Seq::empty()),
                ),
            ),
            CustomOutcome::Failed { key, value, why } => EnvFileOutcome::Failed { key, value, why },
        }
    }
}

/// A custom variable that cannot be resolved.
#[derive(Debug)]
pub struct EnvFileError {
    pub key: String,
    pub error: InterpolateError,
}

impl EnvFileError {
    /// The error in words, without its cause.
    pub fn message(&self) -> (r: String)
        ensures
            r@ == "failed to interpolate custom env var \""@ + self.key@ + "\""@,
    {
        let mut out = "failed to interpolate custom env var \"".to_owned();
        out.append(self.key.as_str());
        out.append("\"");
        out
    }
}

/// One text behind another.
fn concat2(a: &str, b: &str) -> (r: String)
    ensures
        r@ == a@ + b@,
{
    let mut out = a.to_owned();
    out.append(b);
    out
}

/// For a service whose variables are named in ASCII, the prefix of the names is
/// the name with the letters `a` to `z` in upper case and `_` for `-`.
pub open spec fn ascii_prefix_is_plain(r: RequestView) -> bool {
    request::is_ascii_text(request::variable_base(r)) ==> request::prefix_text(r)
        == request::underscored(request::ascii_uppercase(request::variable_base(r)))
}

/// Appends the lines of a service, and adds its variables.
fn write_service(
    lines: &mut Vec<String>,
    known: &mut StrMap<String>,
    request: &ServiceRequest,
    port: u16,
)
    ensures
        text::texts(final(lines)@) == text::texts(old(lines)@) + service_lines(request@, port),
        strmap::text_map(final(known)@) == ({
            let with_port = strmap::text_map(old(known)@).insert(
                port_variable(request@),
                text::decimal(port as nat),
            );
            if is_web(request@) {
                with_port.insert(url_variable(request@), local_url(request@.scheme->0, port))
            } else {
                with_port
            }
        }),
        ascii_prefix_is_plain(request@),
{
    let ghost r = request@;
    let ghost before = text::texts(lines@);
    let ghost map0 = known@;
    let prefix = request.env_prefix();
    let number = decimal_text(port as u64);
    let name = match &request.env_name {
        Some(_) => prefix.as_str().to_owned(),
        None => concat2(prefix.as_str(), "_PORT"),
    };
    let mut line = concat2(name.as_str(), "=");
    line.append(number.as_str());
    lines.push(line);
    known.insert(name, number);
    let ghost lines1 = text::texts(lines@);
    proof {
        assert(lines1 =~= before.push(port_variable(r) + "="@ + text::decimal(port as nat)));
        assert(strmap::text_map(known@) =~= strmap::text_map(map0).insert(
            port_variable(r),
            text::decimal(port as nat),
        ));
    }
    if request.default_port != port {
        let mut remark = concat2("# ^ ", request.name.as_str());
        remark.append(" default ");
        remark.append(decimal_text(request.default_port as u64).as_str());
        remark.append(", allocated ");
        remark.append(decimal_text(port as u64).as_str());
        let ghost written = remark@;
        lines.push(remark);
        assert(text::texts(lines@) =~= lines1.push(written));
    }
    let ghost lines2 = text::texts(lines@);
    let ghost map1 = known@;
    if let Some(scheme) = &request.scheme {
        if web_scheme(scheme.as_str()) {
            let mut url = concat2(scheme.as_str(), "://127.0.0.1:");
            url.append(decimal_text(port as u64).as_str());
            let name = concat2(prefix.as_str(), "_URL");
            let mut line = concat2(name.as_str(), "=");
            line.append(url.as_str());
            let ghost written = line@;
            lines.push(line);
            known.insert(name, url);
            proof {
                assert(text::texts(lines@) =~= lines2.push(written));
                assert(strmap::text_map(known@) =~= strmap::text_map(map1).insert(
                    url_variable(r),
                    local_url(r.scheme->0, port),
                ));
            }
        }
    }
    assert(text::texts(lines@) =~= before + service_lines(r, port));
}

/// Whether every request has a port.
pub fn all_have_ports(requests: &Vec<ServiceRequest>, ports: &StrMap<u16>) -> (r: bool)
    ensures
        r == forall|i: int|
            0 <= i < requests@.len() ==> ports@.contains_key(#[trigger] requests@[i].name@),
{
    for i in 0..requests.len()
        invariant
            forall|j: int| 0 <= j < i ==> ports@.contains_key(#[trigger] requests@[j].name@),
    {
        if ports.get(requests[i].name.as_str()).is_none() {
            assert(!ports@.contains_key(requests@[i as int].name@));
            return false;
        }
    }
    true
}

/// Writes the environment file of a working directory. The custom variables
/// come in ascending order of their names.
pub fn render_env_file(
    dir: &str,
    requests: &Vec<ServiceRequest>,
    ports: &StrMap<u16>,
    custom: &StrMap<String>,
) -> (r: Result<String, EnvFileError>)
    requires
        forall|i: int|
            0 <= i < requests@.len() ==> ports@.contains_key(#[trigger] requests@[i].name@),
    ensures
        ({
            let outcome = env_file(
                dir@,
                request::request_views(requests@),
                ports@,
                strmap::text_items(custom.items()),
            );
            match r {
                Ok(t) => outcome == EnvFileOutcome::Text(t@),
                Err(e) => outcome == (EnvFileOutcome::Failed {
                    key: e.key@,
                    value: e.error.value_text(),
                    why: e.error.outcome(),
                }) && !(e.error.outcome() is Text),
            }
        }),
        strmap::ascending(custom.items()),
        forall|i: int| 0 <= i < requests@.len() ==> ascii_prefix_is_plain(#[trigger] requests@[i]@),
{
    proof {
        use_type_invariant(custom);
    }
    let ghost views = request::request_views(requests@);
    let ghost items = strmap::text_items(custom.items());
    let mut lines: Vec<String> = Vec::new();
    let mut known: StrMap<String> = StrMap::new();
    lines.push("# Generated by dpcp — do not edit by hand".to_owned());
    lines.push(concat2("# Working directory: ", dir));
    proof {
        assert(text::texts(lines@) =~= fixed_lines(dir@, views.take(0), ports@));
        assert(strmap::text_map(known@) =~= service_variables(views.take(0), ports@));
    }
    for i in 0..requests.len()
        invariant
            views == request::request_views(requests@),
            forall|i: int|
                0 <= i < requests@.len() ==> ports@.contains_key(#[trigger] requests@[i].name@),
            text::texts(lines@) == fixed_lines(dir@, views.take(i as int), ports@),
            forall|j: int| 0 <= j < i ==> ascii_prefix_is_plain(#[trigger] requests@[j]@),
            strmap::text_map(known@) == service_variables(views.take(i as int), ports@),
    {
        let request = &requests[i];
        assert(ports@.contains_key(requests@[i as int].name@));
        if let Some(port) = ports.get(request.name.as_str()) {
            write_service(&mut lines, &mut known, request, *port);
            proof {
                let upto = views.take(i + 1);
                assert(upto.last() == request@);
                assert(upto.drop_last() =~= views.take(i as int));
                assert(text::texts(lines@) =~= fixed_lines(dir@, upto, ports@));
            }
        }
    }
    assert(views.take(views.len() as int) =~= views);
    let ghost fixed = fixed_lines(dir@, views, ports@);
    let ghost vars = service_variables(views, ports@);
    let count = custom.len();
    if count > 0 {
        lines.push(String::new());
        lines.push("# Custom environment variables".to_owned());
        let ghost head = fixed.push(Seq::empty()).push("# Custom environment variables"@);
        proof {
            assert(text::texts(lines@) =~= head);
            assert(custom_lines(items.take(0), vars) == CustomOutcome::Lines(Seq::empty()));
            assert(head + Seq::<Seq<char>>::empty() =~= head);
            assert(items.take(items.len() as int) =~= items);
        }
        for i in 0..count
            invariant
                count == custom.items().len(),
                strmap::ascending(custom.items()),
                forall|j: int|
                    0 <= j < requests@.len() ==> ascii_prefix_is_plain(#[trigger] requests@[j]@),
                items == strmap::text_items(custom.items()),
                vars == strmap::text_map(known@),
                vars == service_variables(views, ports@),
                views == request::request_views(requests@),
                items.len() > 0,
                custom_lines(items.take(i as int), vars) is Lines,
                text::texts(lines@) == head + custom_lines(items.take(i as int), vars)->Lines_0,
        {
            let key = custom.key_at(i);
            let value = custom.value_at(i);
            proof {
                assert(items[i as int] == (key@, value@));
                assert(items.take(i + 1).last() == items[i as int]);
                assert(items.take(i + 1).drop_last() =~= items.take(i as int));
            }
            match interpolate_env_value(value.as_str(), &known) {
                Ok(t) => {
                    let ghost before = text::texts(lines@);
                    let mut line = concat2(key, "=");
                    line.append(t.as_str());
                    let ghost written = line@;
                    lines.push(line);
                    proof {
                        let front = custom_lines(items.take(i as int), vars)->Lines_0;
                        assert(text::texts(lines@) =~= before.push(written));
                        assert(before.push(written) =~= head + front.push(written));
                    }
                },
                Err(error) => {
                    proof {
                        custom_failure_lasts(items, vars, i + 1);
                    }
                    return Err(EnvFileError { key: key.to_owned(), error });
                },
            }
        }
    }
    let ghost before = text::texts(lines@);
    lines.push(String::new());
    assert(text::texts(lines@) =~= before.push(Seq::empty()));
    Ok(join_lines(&lines))
}

/// A custom variable that cannot be resolved decides, whatever follows it.
proof fn custom_failure_lasts(
    custom: Seq<(Seq<char>, Seq<char>)>,
    known: Map<Seq<char>, Seq<char>>,
    n: int,
)
    requires
        0 <= n <= custom.len(),
        custom_lines(custom.take(n), known) is Failed,
    ensures
        custom_lines(custom, known) == custom_lines(custom.take(n), known),
    decreases custom.len() - n,
{
    if n == custom.len() {
        assert(custom.take(n) =~= custom);
    } else {
        assert(custom.take(n + 1).drop_last() =~= custom.take(n));
        custom_failure_lasts(custom, known, n + 1);
    }
}

/// The port of every service is written.
pub proof fn every_port_is_written(
    dir: Seq<char>,
    requests: Seq<RequestView>,
    ports: Map<Seq<char>, u16>,
    i: int,
)
    requires
        0 <= i < requests.len(),
    ensures
        fixed_lines(dir, requests, ports).contains(
            port_variable(requests[i]) + "="@ + text::decimal(ports[requests[i].name] as nat),
        ),
{
    let line = port_variable(requests[i]) + "="@ + text::decimal(ports[requests[i].name] as nat);
    service_line_is_written(requests, ports, i);
    let lines = all_service_lines(requests, ports);
    let j = choose|j: int| 0 <= j < lines.len() && lines[j] == line;
    assert(fixed_lines(dir, requests, ports)[j + 2] == line);
}

proof fn service_line_is_written(
    requests: Seq<RequestView>,
    ports: Map<Seq<char>, u16>,
    i: int,
)
    requires
        0 <= i < requests.len(),
    ensures
        all_service_lines(requests, ports).contains(
            port_variable(requests[i]) + "="@ + text::decimal(ports[requests[i].name] as nat),
        ),
    decreases requests.len(),
{
    let line = port_variable(requests[i]) + "="@ + text::decimal(ports[requests[i].name] as nat);
    let front = all_service_lines(requests.drop_last(), ports);
    let all = all_service_lines(requests, ports);
    if i == requests.len() - 1 {
        assert(service_lines(requests[i], ports[requests[i].name])[0] == line);
        assert(all[front.len() as int] == line);
    } else {
        service_line_is_written(requests.drop_last(), ports, i);
        let j = choose|j: int| 0 <= j < front.len() && front[j] == line;
        assert(all[j] == line);
    }
}

/// A custom value can refer to the port of every service; the reference
/// stands for that port unless a variable of a later service has the name.
pub proof fn every_port_can_be_referred_to(
    requests: Seq<RequestView>,
    ports: Map<Seq<char>, u16>,
    i: int,
)
    requires
        0 <= i < requests.len(),
    ensures
        service_variables(requests, ports).contains_key(port_variable(requests[i])),
        (forall|j: int|
            i < j < requests.len() ==> port_variable(#[trigger] requests[j]) != port_variable(
                requests[i],
            ) && (is_web(requests[j]) ==> url_variable(requests[j]) != port_variable(requests[i])))
            ==> service_variables(requests, ports)[port_variable(requests[i])] == text::decimal(
            ports[requests[i].name] as nat,
        ),
    decreases requests.len(),
{
    let last = requests[requests.len() - 1];
    let front = requests.drop_last();
    if i < requests.len() - 1 {
        every_port_can_be_referred_to(front, ports, i);
        if forall|j: int|
            i < j < requests.len() ==> port_variable(#[trigger] requests[j]) != port_variable(
                requests[i],
            ) && (is_web(requests[j]) ==> url_variable(requests[j]) != port_variable(
                requests[i],
            )) {
            assert forall|j: int| i < j < front.len() implies port_variable(#[trigger] front[j])
                != port_variable(front[i]) && (is_web(front[j]) ==> url_variable(front[j])
                != port_variable(front[i])) by {
                assert(front[j] == requests[j]);
            }
            assert(port_variable(last) != port_variable(requests[i]));
        }
    } else {
        own_variables_differ(last);
    }
}

/// The text of an environment file ends with a line feed.
pub proof fn env_file_ends_with_line_feed(
    dir: Seq<char>,
    requests: Seq<RequestView>,
    ports: Map<Seq<char>, u16>,
    custom: Seq<(Seq<char>, Seq<char>)>,
)
    ensures
        env_file(dir, requests, ports, custom) matches EnvFileOutcome::Text(t) ==> t.len() > 0
            && t.last() == '\n',
{
    reveal_strlit("\n");
    let fixed = fixed_lines(dir, requests, ports);
    if custom.len() == 0 {
        let lines = fixed.push(Seq::empty());
        assert(lines.drop_last() =~= fixed);
        assert(text::joined(lines) =~= text::joined(fixed) + "\n"@);
    } else if let CustomOutcome::Lines(own) = custom_lines(
        custom,
        service_variables(requests, ports),
    ) {
        let front = fixed.push(Seq::empty()).push("# Custom environment variables"@) + own;
        let lines = front.push(Seq::empty());
        assert(lines.drop_last() =~= front);
        assert(text::joined(lines) =~= text::joined(front) + "\n"@);
    }
}

/// Without a hostname, the URL that is printed of a web service is the one
/// that is written, with a slash behind it.
pub proof fn printed_url_is_written_url_with_slash(scheme: Seq<char>, port: u16)
    requires
        display::is_web_scheme(scheme),
    ensures
        display::display_text(port, Some(scheme), None) == local_url(scheme, port) + "/"@,
{
    reveal_strlit("://");
    reveal_strlit("127.0.0.1");
    reveal_strlit(":");
    reveal_strlit("://127.0.0.1:");
    assert("://127.0.0.1:"@ =~= "://"@ + "127.0.0.1"@ + ":"@);
    assert(display::display_text(port, Some(scheme), None) =~= local_url(scheme, port) + "/"@);
}

/// The two variables of a service have two names.
pub proof fn own_variables_differ(r: RequestView)
    ensures
        port_variable(r) != url_variable(r),
{
    reveal_strlit("_PORT");
    reveal_strlit("_URL");
    let prefix = request::prefix_text(r);
    assert((prefix + "_PORT"@).len() == prefix.len() + 5);
    assert((prefix + "_URL"@).len() == prefix.len() + 4);
}

/// A service with a configured variable name has its port written under
/// exactly that name, in upper case and with `_` for `-`.
pub proof fn configured_name_holds_the_port(r: RequestView, port: u16, name: Seq<char>)
    requires
        r.env_name == Some(name),
    ensures
        service_lines(r, port)[0] == request::underscored(request::uppercase(name)) + "="@
            + text::decimal(port as nat),
{
}

/// The text of lines that each end with a line feed.
spec fn ended(lines: Seq<Seq<char>>) -> Seq<char> {
    text::joined(lines.push(Seq::empty()))
}

proof fn one_more_ended_line(lines: Seq<Seq<char>>, line: Seq<char>)
    requires
        lines.len() > 0,
    ensures
        ended(lines.push(line)) == ended(lines) + (line + "\n"@),
{
    let none = Seq::<char>::empty();
    text::one_more_line(lines, line);
    text::one_more_line(lines, none);
    text::one_more_line(lines.push(line), none);
    assert(ended(lines.push(line)) =~= ended(lines) + (line + "\n"@));
}

/// The environment file of no service is the two lines of its header.
pub proof fn header_stands_in_front(dir: Seq<char>, ports: Map<Seq<char>, u16>)
    ensures
        env_file(dir, Seq::empty(), ports, Seq::empty()) == EnvFileOutcome::Text(
            "# Generated by dpcp — do not edit by hand"@ + "\n"@ + "# Working directory: "@ + dir
                + "\n"@,
        ),
{
    let first = "# Generated by dpcp — do not edit by hand"@;
    let second = "# Working directory: "@ + dir;
    let fixed = fixed_lines(dir, Seq::empty(), ports);
    assert(fixed =~= seq![first].push(second));
    one_more_ended_line(seq![first], second);
    text::one_more_line(seq![first], Seq::empty());
    assert(ended(fixed) =~= first + "\n"@ + "# Working directory: "@ + dir + "\n"@);
}

/// What one more service adds behind the file: the line of its port; a remark
/// if that is not its default; and the line of its URL if its scheme is `http`
/// or `https`. Nothing else.
pub proof fn one_more_service_is_written(
    dir: Seq<char>,
    requests: Seq<RequestView>,
    r: RequestView,
    ports: Map<Seq<char>, u16>,
)
    ensures
        ({
            let port = ports[r.name];
            let number = text::decimal(port as nat);
            let upper = request::uppercase(
                match r.env_name {
                    Some(n) => n,
                    None => r.name,
                },
            );
            let prefix = Seq::new(
                upper.len(),
                |i: int|
                    if upper[i] == '-' {
                        '_'
                    } else {
                        upper[i]
                    },
            );
            let name = if r.env_name is Some {
                prefix
            } else {
                prefix + "_PORT"@
            };
            let remark = if r.default_port != port {
                "# ^ "@ + r.name + " default "@ + text::decimal(r.default_port as nat)
                    + ", allocated "@ + number + "\n"@
            } else {
                Seq::empty()
            };
            let url = if r.scheme == Some("http"@) || r.scheme == Some("https"@) {
                prefix + "_URL"@ + "="@ + r.scheme->0 + "://127.0.0.1:"@ + number + "\n"@
            } else {
                Seq::empty()
            };
            match env_file(dir, requests, ports, Seq::empty()) {
                EnvFileOutcome::Text(before) => env_file(
                    dir,
                    requests.push(r),
                    ports,
                    Seq::empty(),
                ) == EnvFileOutcome::Text(before + (name + "="@ + number + "\n"@) + remark + url),
                _ => false,
            }
        }),
{
    let port = ports[r.name];
    let number = text::decimal(port as nat);
    let upper = request::uppercase(request::variable_base(r));
    let prefix = Seq::new(
        upper.len(),
        |i: int|
            if upper[i] == '-' {
                '_'
            } else {
                upper[i]
            },
    );
    assert(request::prefix_text(r) =~= prefix);
    let all = requests.push(r);
    assert(all.drop_last() =~= requests);
    let fixed = fixed_lines(dir, requests, ports);
    let line = port_variable(r) + "="@ + number;
    let remark = "# ^ "@ + r.name + " default "@ + text::decimal(r.default_port as nat)
        + ", allocated "@ + number;
    let url = prefix + "_URL"@ + "="@ + local_url(r.scheme->0, port);
    let lines1 = fixed.push(line);
    let lines2 = if r.default_port != port {
        lines1.push(remark)
    } else {
        lines1
    };
    let lines3 = if is_web(r) {
        lines2.push(url)
    } else {
        lines2
    };
    assert(fixed_lines(dir, all, ports) =~= lines3);
    one_more_ended_line(fixed, line);
    let none = Seq::<char>::empty();
    if r.default_port != port {
        one_more_ended_line(lines1, remark);
    } else {
        assert(ended(lines1) + none =~= ended(lines1));
    }
    if is_web(r) {
        one_more_ended_line(lines2, url);
        let s = r.scheme->0;
        assert(url + "\n"@ =~= prefix + "_URL"@ + "="@ + s + "://127.0.0.1:"@ + number + "\n"@);
    } else {
        assert(ended(lines2) + none =~= ended(lines2));
    }
}

/// What one more service adds to the variables that can be referred to: its
/// port and, if its scheme is `http` or `https`, its URL. Each takes the place
/// of an earlier variable of its name.
pub proof fn one_more_service_can_be_referred_to(
    requests: Seq<RequestView>,
    r: RequestView,
    ports: Map<Seq<char>, u16>,
)
    ensures
        service_variables(Seq::empty(), ports) == Map::<Seq<char>, Seq<char>>::empty(),
        ({
            let port = ports[r.name];
            let number = text::decimal(port as nat);
            let upper = request::uppercase(
                match r.env_name {
                    Some(n) => n,
                    None => r.name,
                },
            );
            let prefix = Seq::new(
                upper.len(),
                |i: int|
                    if upper[i] == '-' {
                        '_'
                    } else {
                        upper[i]
                    },
            );
            let name = if r.env_name is Some {
                prefix
            } else {
                prefix + "_PORT"@
            };
            let with_port = service_variables(requests, ports).insert(name, number);
            service_variables(requests.push(r), ports) == (if r.scheme == Some("http"@) || r.scheme
                == Some("https"@) {
                with_port.insert(prefix + "_URL"@, r.scheme->0 + "://127.0.0.1:"@ + number)
            } else {
                with_port
            })
        }),
{
    let upper = request::uppercase(request::variable_base(r));
    let prefix = Seq::new(
        upper.len(),
        |i: int|
            if upper[i] == '-' {
                '_'
            } else {
                upper[i]
            },
    );
    assert(request::prefix_text(r) =~= prefix);
    assert(requests.push(r).drop_last() =~= requests);
}

/// What one more custom variable adds behind the file: its line, with the
/// references of its value resolved, and in front of the first one an empty
/// line and the heading. A variable that cannot be resolved is the failure,
/// unless an earlier one was.
pub proof fn one_more_custom_variable_is_written(
    dir: Seq<char>,
    requests: Seq<RequestView>,
    ports: Map<Seq<char>, u16>,
    custom: Seq<(Seq<char>, Seq<char>)>,
    key: Seq<char>,
    value: Seq<char>,
)
    ensures
        ({
            let before = env_file(dir, requests, ports, custom);
            let after = env_file(dir, requests, ports, custom.push((key, value)));
            let heading = if custom.len() == 0 {
                "\n"@ + "# Custom environment variables"@ + "\n"@
            } else {
                Seq::empty()
            };
            match before {
                EnvFileOutcome::Text(t) => match interpolate::interpolation(
                    value,
                    service_variables(requests, ports),
                ) {
                    Interpolation::Text(v) => after == EnvFileOutcome::Text(
                        t + heading + key + "="@ + v + "\n"@,
                    ),
                    why => after == (EnvFileOutcome::Failed { key, value, why }),
                },
                failed => after == failed,
            }
        }),
{
    let known = service_variables(requests, ports);
    let all = custom.push((key, value));
    let fixed = fixed_lines(dir, requests, ports);
    let none = Seq::<char>::empty();
    let title = "# Custom environment variables"@;
    let head = fixed.push(none).push(title);
    assert(all.drop_last() =~= custom);
    assert(all.last() == (key, value));
    one_more_ended_line(fixed, none);
    one_more_ended_line(fixed.push(none), title);
    if let CustomOutcome::Lines(lines) = custom_lines(custom, known) {
        if let Interpolation::Text(v) = interpolate::interpolation(value, known) {
            let line = key + "="@ + v;
            assert(head + lines.push(line) =~= (head + lines).push(line));
            one_more_ended_line(head + lines, line);
            if custom.len() == 0 {
                assert(head + lines =~= head);
                assert(ended((head + lines).push(line)) =~= ended(fixed) + ("\n"@ + title + "\n"@)
                    + key + "="@ + v + "\n"@);
            } else {
                assert(ended((head + lines).push(line)) =~= ended(head + lines) + none + key + "="@
                    + v + "\n"@);
            }
        }
    }
}

/// A line of the fixed part stands in the file, between line feeds, whatever
/// the custom variables are.
proof fn fixed_line_stands_in_file(
    dir: Seq<char>,
    requests: Seq<RequestView>,
    ports: Map<Seq<char>, u16>,
    custom: Seq<(Seq<char>, Seq<char>)>,
    k: int,
)
    requires
        0 < k < fixed_lines(dir, requests, ports).len(),
    ensures
        env_file(dir, requests, ports, custom) matches EnvFileOutcome::Text(t) ==> exists|
            front: Seq<char>,
            back: Seq<char>,
        |
            t == #[trigger] (front + ("\n"@ + fixed_lines(dir, requests, ports)[k] + "\n"@) + back),
{
    let fixed = fixed_lines(dir, requests, ports);
    if custom.len() == 0 {
        let lines = fixed.push(Seq::empty());
        assert(lines[k] == fixed[k]);
        text::line_stands_between_line_feeds(lines, k);
    } else if let CustomOutcome::Lines(own) = custom_lines(
        custom,
        service_variables(requests, ports),
    ) {
        let lines = (fixed.push(Seq::empty()).push("# Custom environment variables"@)
            + own).push(Seq::empty());
        assert(lines[k] == fixed[k]);
        text::line_stands_between_line_feeds(lines, k);
    }
}

proof fn web_service_has_its_url_line(
    requests: Seq<RequestView>,
    ports: Map<Seq<char>, u16>,
    i: int,
) -> (k: int)
    requires
        0 <= i < requests.len(),
        is_web(requests[i]),
    ensures
        0 <= k < all_service_lines(requests, ports).len(),
        all_service_lines(requests, ports)[k] == url_variable(requests[i]) + "="@ + local_url(
            requests[i].scheme->0,
            ports[requests[i].name],
        ),
    decreases requests.len(),
{
    let all = all_service_lines(requests, ports);
    let front = all_service_lines(requests.drop_last(), ports);
    if i == requests.len() - 1 {
        let own = service_lines(requests[i], ports[requests[i].name]);
        assert(all[all.len() - 1] == own[own.len() - 1]);
        all.len() - 1
    } else {
        let k = web_service_has_its_url_line(requests.drop_last(), ports, i);
        assert(all[k] == front[k]);
        k
    }
}

/// The URL of every service of scheme `http` or `https` stands in the
/// environment file, in a line of its own.
pub proof fn every_url_stands_in_the_file(
    dir: Seq<char>,
    requests: Seq<RequestView>,
    ports: Map<Seq<char>, u16>,
    custom: Seq<(Seq<char>, Seq<char>)>,
    i: int,
    scheme: Seq<char>,
)
    requires
        0 <= i < requests.len(),
        requests[i].scheme == Some(scheme),
        scheme == "http"@ || scheme == "https"@,
    ensures
        ({
            let line = request::prefix_text(requests[i]) + "_URL"@ + "="@ + (scheme
                + "://127.0.0.1:"@ + text::decimal(ports[requests[i].name] as nat));
            env_file(dir, requests, ports, custom) matches EnvFileOutcome::Text(t) ==> exists|
                front: Seq<char>,
                back: Seq<char>,
            |
                t == #[trigger] (front + ("\n"@ + line + "\n"@) + back)
        }),
{
    let k = web_service_has_its_url_line(requests, ports, i);
    let fixed = fixed_lines(dir, requests, ports);
    assert(fixed[k + 2] == all_service_lines(requests, ports)[k]);
    fixed_line_stands_in_file(dir, requests, ports, custom, k + 2);
}

/// The port of every service stands in the environment file, in a line of its
/// own, under the service's prefix, with `_PORT` behind it unless a name is
/// configured.
pub proof fn every_port_stands_in_the_file(
    dir: Seq<char>,
    requests: Seq<RequestView>,
    ports: Map<Seq<char>, u16>,
    custom: Seq<(Seq<char>, Seq<char>)>,
    i: int,
    name: Seq<char>,
)
    requires
        0 <= i < requests.len(),
        name == (if requests[i].env_name is Some {
            request::prefix_text(requests[i])
        } else {
            request::prefix_text(requests[i]) + "_PORT"@
        }),
    ensures
        ({
            let line = name + "="@ + text::decimal(ports[requests[i].name] as nat);
            env_file(dir, requests, ports, custom) matches EnvFileOutcome::Text(t) ==> exists|
                front: Seq<char>,
                back: Seq<char>,
            |
                t == #[trigger] (front + ("\n"@ + line + "\n"@) + back)
        }),
{
    let line = name + "="@ + text::decimal(ports[requests[i].name] as nat);
    assert(port_variable(requests[i]) == name);
    service_line_is_written(requests, ports, i);
    let lines = all_service_lines(requests, ports);
    let k = choose|k: int| 0 <= k < lines.len() && lines[k] == line;
    assert(fixed_lines(dir, requests, ports)[k + 2] == line);
    fixed_line_stands_in_file(dir, requests, ports, custom, k + 2);
}

/// A custom value can refer to the URL of every service of scheme `http` or
/// `https`; the reference stands for that URL unless a variable of a later
/// service has the name.
pub proof fn every_url_can_be_referred_to(
    requests: Seq<RequestView>,
    ports: Map<Seq<char>, u16>,
    i: int,
    scheme: Seq<char>,
)
    requires
        0 <= i < requests.len(),
        requests[i].scheme == Some(scheme),
        scheme == "http"@ || scheme == "https"@,
    ensures
        ({
            let name = request::prefix_text(requests[i]) + "_URL"@;
            let known = service_variables(requests, ports);
            &&& known.contains_key(name)
            &&& (forall|j: int|
                i < j < requests.len() ==> port_variable(#[trigger] requests[j]) != name
                    && request::prefix_text(requests[j]) + "_URL"@ != name) ==> known[name]
                == scheme + "://127.0.0.1:"@ + text::decimal(ports[requests[i].name] as nat)
        }),
    decreases requests.len(),
{
    let name = request::prefix_text(requests[i]) + "_URL"@;
    let front = requests.drop_last();
    if i < requests.len() - 1 {
        every_url_can_be_referred_to(front, ports, i, scheme);
        if forall|j: int|
            i < j < requests.len() ==> port_variable(#[trigger] requests[j]) != name
                && request::prefix_text(requests[j]) + "_URL"@ != name {
            assert forall|j: int| i < j < front.len() implies port_variable(#[trigger] front[j])
                != name && request::prefix_text(front[j]) + "_URL"@ != name by {
                assert(front[j] == requests[j]);
            }
            let last = requests[requests.len() - 1];
            assert(port_variable(last) != name);
        }
    }
}

} // verus!
