//! How an allocation reads on the terminal.

use vstd::prelude::*;

use crate::hostname;
use crate::text;
use crate::text::{decimal_text, same_text};

verus! {

/// Whether a service of this scheme is reached by a URL.
pub open spec fn is_web_scheme(scheme: Seq<char>) -> bool {
    scheme == "http"@ || scheme == "https"@
}

/// Tests `is_web_scheme`.
pub fn web_scheme(scheme: &str) -> (r: bool)
    ensures
        r == is_web_scheme(scheme@),
{
    same_text(scheme, "http") || same_text(scheme, "https")
}

/// The terminal form of an allocation: a URL for a web service, `host:port`
/// for another when there is a hostname, else the port alone.
pub open spec fn display_text(
    port: u16,
    scheme: Option<Seq<char>>,
    hostname: Option<Seq<char>>,
) -> Seq<char> {
    match (scheme, hostname) {
        (Some(s), Some(h)) if is_web_scheme(s) => s + "://"@ + h + ":"@ + text::decimal(port as nat)
            + "/"@,
        (Some(s), None) if is_web_scheme(s) => s + "://"@ + "127.0.0.1"@ + ":"@ + text::decimal(
            port as nat,
        ) + "/"@,
        (_, Some(h)) => h + ":"@ + text::decimal(port as nat),
        (_, None) => text::decimal(port as nat),
    }
}

/// The text of an optional string slice.
pub open spec fn opt_str(o: Option<&str>) -> Option<Seq<char>> {
    match o {
        Some(s) => Some(s@),
        None => None,
    }
}

/// Borrows an optional string.
pub fn as_opt_str(o: &Option<String>) -> (r: Option<&str>)
    ensures
        opt_str(r) == text::opt_text(*o),
{
    match o {
        Some(s) => Some(s.as_str()),
        None => None,
    }
}

/// Renders an allocation for the terminal. Without a hostname, URLs fall back
/// to loopback and port-only services stay bare numbers.
pub fn service_display(port: u16, scheme: Option<&str>, hostname: Option<&str>) -> (r: String)
    ensures
        r@ == display_text(port, opt_str(scheme), opt_str(hostname)),
{
    let number = decimal_text(port as u64);
    let web = match scheme {
        Some(s) => web_scheme(s),
        None => false,
    };
    let mut out = String::new();
    if web {
        if let Some(s) = scheme {
            out.append(s);
        }
        out.append("://");
        match hostname {
            Some(h) => out.append(h),
            None => out.append("127.0.0.1"),
        }
        out.append(":");
        out.append(number.as_str());
        out.append("/");
        assert(out@ =~= display_text(port, opt_str(scheme), opt_str(hostname)));
    } else {
        if let Some(h) = hostname {
            out.append(h);
            out.append(":");
        }
        out.append(number.as_str());
        assert(out@ =~= display_text(port, opt_str(scheme), opt_str(hostname)));
    }
    out
}

/// The front of `s`, up to the first `/`, `?` or `#`.
pub open spec fn until_delimiter(s: Seq<char>) -> Seq<char>
    decreases s.len(),
{
    if s.len() == 0 || s[0] == '/' || s[0] == '?' || s[0] == '#' {
        Seq::empty()
    } else {
        seq![s[0]] + until_delimiter(s.skip(1))
    }
}

/// The authority of a URL: what stands behind `://`, up to the first
/// character that ends it.
pub open spec fn url_authority(url: Seq<char>) -> Option<Seq<char>> {
    match text::find(url, seq![':', '/', '/']) {
        Some(i) => Some(until_delimiter(url.skip(i + 3))),
        None => None,
    }
}

/// The position of the last `:` of `s`.
pub open spec fn last_colon(s: Seq<char>) -> Option<int>
    decreases s.len(),
{
    if s.len() == 0 {
        None
    } else if s.last() == ':' {
        Some(s.len() - 1)
    } else {
        last_colon(s.drop_last())
    }
}

/// The host and the port that an authority names.
pub open spec fn host_and_port(authority: Seq<char>) -> Option<(Seq<char>, u16)> {
    match last_colon(authority) {
        Some(i) => match text::port_value(authority.skip(i + 1)) {
            Some(port) => Some((authority.take(i), port)),
            None => None,
        },
        None => None,
    }
}

proof fn until_delimiter_keeps_front(front: Seq<char>, rest: Seq<char>)
    requires
        forall|i: int|
            0 <= i < front.len() ==> #[trigger] front[i] != '/' && front[i] != '?' && front[i]
                != '#',
    ensures
        until_delimiter(front + rest) == front + until_delimiter(rest),
    decreases front.len(),
{
    let s = front + rest;
    if front.len() == 0 {
        assert(s =~= rest);
        assert(front + until_delimiter(rest) =~= until_delimiter(rest));
    } else {
        assert(s[0] == front[0]);
        assert(s.skip(1) =~= front.skip(1) + rest);
        until_delimiter_keeps_front(front.skip(1), rest);
        assert(seq![front[0]] + (front.skip(1) + until_delimiter(rest)) =~= front
            + until_delimiter(rest));
    }
}

proof fn last_colon_is_before_digits(host: Seq<char>, digits: Seq<char>)
    requires
        text::all_digits(digits),
    ensures
        last_colon(host + seq![':'] + digits) == Some(host.len() as int),
    decreases digits.len(),
{
    let s = host + seq![':'] + digits;
    if digits.len() == 0 {
        assert(s =~= host.push(':'));
    } else {
        assert(text::is_digit(digits.last()));
        assert(s.last() == digits.last());
        assert(s.drop_last() =~= host + seq![':'] + digits.drop_last());
        last_colon_is_before_digits(host, digits.drop_last());
    }
}

/// `host:port` names the host and the port that it was made of.
pub proof fn host_and_port_read_back(host: Seq<char>, port: u16)
    ensures
        host_and_port(host + ":"@ + text::decimal(port as nat)) == Some((host, port)),
{
    reveal_strlit(":");
    let digits = text::decimal(port as nat);
    let a = host + ":"@ + digits;
    assert(":"@ =~= seq![':']);
    text::decimal_writes_value(port as nat);
    last_colon_is_before_digits(host, digits);
    assert(a.take(host.len() as int) =~= host);
    assert(a.skip(host.len() as int + 1) =~= digits);
    text::port_reads_back(port);
}

/// A hostname that can be used is the host, and the allocated port the port,
/// that the printed URL of a web service names.
pub proof fn printed_url_names_host_and_port(port: u16, scheme: Seq<char>, host: Seq<char>)
    requires
        is_web_scheme(scheme),
        hostname::hostname_fault(host) is None,
    ensures
        ({
            let authority = url_authority(display_text(port, Some(scheme), Some(host)));
            authority == Some(host + ":"@ + text::decimal(port as nat)) && host_and_port(
                authority->0,
            ) == Some((host, port))
        }),
{
    reveal_strlit("http");
    reveal_strlit("https");
    reveal_strlit("://");
    reveal_strlit(":");
    reveal_strlit("/");
    let digits = text::decimal(port as nat);
    let url = display_text(port, Some(scheme), Some(host));
    let authority = host + ":"@ + digits;
    let mark = seq![':', '/', '/'];
    let n = scheme.len() as int;
    assert("://"@ =~= mark);
    assert(url =~= scheme + mark + (authority + "/"@));
    assert(url.subrange(n, n + 3) =~= mark);
    assert forall|j: int| 0 <= j < n implies !text::occurs_at(url, mark, j) by {
        assert(url[j] == scheme[j]);
        if text::occurs_at(url, mark, j) {
            assert(url.subrange(j, j + 3)[0] == url[j]);
            assert(mark[0] == ':');
        }
    }
    text::lowest_is_found(url, mark, n);
    assert(url.skip(n + 3) =~= authority + "/"@);
    text::decimal_writes_value(port as nat);
    assert forall|i: int| 0 <= i < authority.len() implies #[trigger] authority[i] != '/'
        && authority[i] != '?' && authority[i] != '#' by {
        if i < host.len() {
            hostname::usable_hostname_has_no_delimiter(host, i);
        } else if i > host.len() {
            assert(text::is_digit(digits[i - host.len() - 1]));
        }
    }
    until_delimiter_keeps_front(authority, "/"@);
    assert(authority + until_delimiter("/"@) =~= authority);
    host_and_port_read_back(host, port);
}

/// A service of scheme `http` or `https` is shown as a URL: the scheme, the
/// hostname, or the loopback address without one, and the port.
pub proof fn web_service_is_shown_as_url(
    port: u16,
    scheme: Seq<char>,
    hostname: Option<Seq<char>>,
)
    requires
        scheme == "http"@ || scheme == "https"@,
    ensures
        display_text(port, Some(scheme), hostname) == scheme + "://"@ + (match hostname {
            Some(h) => h,
            None => "127.0.0.1"@,
        }) + ":"@ + text::decimal(port as nat) + "/"@,
{
}

/// A service of any other scheme, or of none, is shown as its port, behind the
/// hostname where there is one.
pub proof fn other_service_is_shown_by_its_port(
    port: u16,
    scheme: Option<Seq<char>>,
    hostname: Option<Seq<char>>,
)
    requires
        scheme != Some("http"@),
        scheme != Some("https"@),
    ensures
        hostname is None ==> display_text(port, scheme, hostname) == text::decimal(port as nat),
        hostname matches Some(h) ==> display_text(port, scheme, hostname) == h + ":"@
            + text::decimal(port as nat),
{
}

/// What is shown of a web service without a hostname names the loopback
/// address and the port; what is shown of another service reads back as its
/// port, or as the hostname and the port.
pub proof fn shown_service_reads_back(
    port: u16,
    scheme: Option<Seq<char>>,
    hostname: Option<Seq<char>>,
)
    ensures
        ({
            let shown = display_text(port, scheme, hostname);
            if scheme == Some("http"@) || scheme == Some("https"@) {
                hostname is None ==> url_authority(shown) is Some && host_and_port(
                    url_authority(shown)->0,
                ) == Some(("127.0.0.1"@, port))
            } else {
                match hostname {
                    Some(h) => host_and_port(shown) == Some((h, port)),
                    None => text::port_value(shown) == Some(port),
                }
            }
        }),
{
    if scheme == Some("http"@) || scheme == Some("https"@) {
        if hostname is None {
            reveal_strlit("127.0.0.1");
            reveal_strlit("0.0.0.0");
            let host = "127.0.0.1"@;
            assert("0.0.0.0"@.len() != host.len());
            assert(hostname::is_alphanumeric(host[0]));
            assert(host =~= seq!['1', '2', '7', '.', '0', '.', '0', '.', '1']);
            hostname::bare_host_is_usable_iff(host);
            printed_url_names_host_and_port(port, scheme->0, host);
        }
    } else {
        if let Some(h) = hostname {
            host_and_port_read_back(h, port);
        } else {
            text::port_reads_back(port);
        }
    }
}

/// An optional string slice has a text if it is there.
pub proof fn optional_text_is_that_of_the_slice(s: &str)
    ensures
        opt_str(Some(s)) == Some(s@),
        opt_str(None) is None,
{
}

} // verus!
