//! The hostname that printed allocations carry.

use vstd::prelude::*;

use crate::display;
use crate::display::as_opt_str;
use crate::ipv6;
use crate::ipv6::ipv6_address;
use crate::text;
use crate::text::{chars_of, find_from, same_text, trim};

verus! {

/// What is wrong with a display hostname.
#[derive(Clone, Copy, Debug, PartialEq, Eq, Structural)]
pub enum HostnameFault {
    /// It holds `://`.
    Url,
    /// It is bracketed, and the brackets hold no IPv6 literal.
    Ipv6,
    /// It holds a `:` outside brackets.
    Port,
    /// It holds a character that no host has.
    Character,
    /// No connection reaches it.
    Unreachable,
}

/// A display hostname that was refused.
#[derive(Debug)]
pub struct HostnameError {
    pub fault: HostnameFault,
    pub host: String,
}

/// A letter or a digit.
pub open spec fn is_alphanumeric(c: char) -> bool {
    ||| '0' <= c && c <= '9'
    ||| 'a' <= c && c <= 'z'
    ||| 'A' <= c && c <= 'Z'
}

/// A character of a bare host.
pub open spec fn is_host_char(c: char) -> bool {
    ||| is_alphanumeric(c)
    ||| c == '.'
    ||| c == '-'
    ||| c == '_'
}

/// Whether `h` holds a letter or a digit.
pub open spec fn has_alphanumeric(h: Seq<char>) -> bool {
    exists|i: int| 0 <= i < h.len() && is_alphanumeric(#[trigger] h[i])
}

/// Whether a label of a host is not empty, and has no `-` at either end.
pub open spec fn is_sound_label(label: Seq<char>) -> bool {
    label.len() > 0 && label[0] != '-' && label.last() != '-'
}

/// Whether every label of `h` is sound; the labels are what the `.` of `h`
/// separate.
pub open spec fn labels_sound(h: Seq<char>) -> bool
    decreases h.len(),
{
    match text::find(h, seq!['.']) {
        None => is_sound_label(h),
        Some(i) => {
            proof {
                text::find_is_lowest(h, seq!['.']);
            }
            is_sound_label(h.take(i)) && labels_sound(h.skip(i + 1))
        },
    }
}

/// Whether `h` stands in square brackets.
pub open spec fn is_bracketed(h: Seq<char>) -> bool {
    h.len() >= 2 && h[0] == '[' && h.last() == ']'
}

/// The first fault of a display hostname, in the order in which they are
/// looked for; `None` for a hostname that can be used. No connection reaches
/// a wildcard address, a host without a letter or a digit, or one with an
/// unsound label.
pub open spec fn hostname_fault(h: Seq<char>) -> Option<HostnameFault> {
    if text::find(h, seq![':', '/', '/']) is Some {
        Some(HostnameFault::Url)
    } else if is_bracketed(h) {
        let inner = h.subrange(1, h.len() - 1);
        if inner.len() == 0 || !ipv6::all_ipv6_chars(inner) {
            Some(HostnameFault::Ipv6)
        } else if inner == "::"@ || !has_alphanumeric(inner) {
            Some(HostnameFault::Unreachable)
        } else {
            None
        }
    } else if h.contains(':') {
        Some(HostnameFault::Port)
    } else if exists|i: int| 0 <= i < h.len() && !is_host_char(#[trigger] h[i]) {
        Some(HostnameFault::Character)
    } else if h == "0.0.0.0"@ || !has_alphanumeric(h) || !labels_sound(h) {
        Some(HostnameFault::Unreachable)
    } else {
        None
    }
}

/// The hostname that is asked for: the flag's, else the environment's, without
/// the whitespace around it, and with brackets around a bare IPv6 address. A
/// blank one asks for none.
pub open spec fn hostname_choice(flag: Option<Seq<char>>, env: Option<Seq<char>>) -> Option<
    Seq<char>,
> {
    let raw = if flag is Some {
        flag
    } else {
        env
    };
    match raw {
        Some(text) => {
            let h = text::trimmed(text);
            if h.len() == 0 {
                None
            } else if ipv6::is_ipv6_address(h) {
                Some("["@ + h + "]"@)
            } else {
                Some(h)
            }
        },
        None => None,
    }
}

impl HostnameError {
    /// The text of the error.
    pub open spec fn message_text(&self) -> Seq<char> {
        let what = match self.fault {
            HostnameFault::Url => "hostname must be a bare host, not a URL: "@,
            HostnameFault::Ipv6 => "hostname is not a valid bracketed IPv6 literal: "@,
            HostnameFault::Port => "hostname must not include a port (bracket IPv6 as [::1]): "@,
            HostnameFault::Character =>
                "hostname may only contain letters, digits, '.', '-' and '_': "@,
            HostnameFault::Unreachable => "hostname cannot be reached: "@,
        };
        what + self.host@
    }

    /// The error in words.
    pub fn message(&self) -> (r: String)
        ensures
            r@ == self.message_text(),
    {
        let mut out = match self.fault {
            HostnameFault::Url => "hostname must be a bare host, not a URL: ".to_owned(),
            HostnameFault::Ipv6 => "hostname is not a valid bracketed IPv6 literal: ".to_owned(),
            HostnameFault::Port =>
                "hostname must not include a port (bracket IPv6 as [::1]): ".to_owned(),
            HostnameFault::Character =>
                "hostname may only contain letters, digits, '.', '-' and '_': ".to_owned(),
            HostnameFault::Unreachable => "hostname cannot be reached: ".to_owned(),
        };
        out.append(self.host.as_str());
        out
    }
}

fn ipv6_char(c: char) -> (r: bool)
    ensures
        r == ipv6::is_ipv6_char(c),
{
    ('0' <= c && c <= '9') || ('a' <= c && c <= 'f') || ('A' <= c && c <= 'F') || c == ':' || c
        == '.'
}

fn alphanumeric(c: char) -> (r: bool)
    ensures
        r == is_alphanumeric(c),
{
    ('0' <= c && c <= '9') || ('a' <= c && c <= 'z') || ('A' <= c && c <= 'Z')
}

fn host_char(c: char) -> (r: bool)
    ensures
        r == is_host_char(c),
{
    alphanumeric(c) || c == '.' || c == '-' || c == '_'
}

/// Tests `all_ipv6_chars` on the part of `h` from `from` to `to`.
fn only_ipv6_chars(h: &Vec<char>, from: usize, to: usize) -> (r: bool)
    requires
        from <= to <= h@.len(),
    ensures
        r == ipv6::all_ipv6_chars(h@.subrange(from as int, to as int)),
{
    let ghost part = h@.subrange(from as int, to as int);
    for i in from..to
        invariant
            from <= to <= h@.len(),
            part == h@.subrange(from as int, to as int),
            forall|j: int| 0 <= j < i - from ==> ipv6::is_ipv6_char(#[trigger] part[j]),
    {
        if !ipv6_char(h[i]) {
            assert(!ipv6::is_ipv6_char(part[i - from]));
            return false;
        }
    }
    true
}

/// Tests `has_alphanumeric` on the part of `h` from `from` to `to`.
fn any_alphanumeric(h: &Vec<char>, from: usize, to: usize) -> (r: bool)
    requires
        from <= to <= h@.len(),
    ensures
        r == has_alphanumeric(h@.subrange(from as int, to as int)),
{
    let ghost part = h@.subrange(from as int, to as int);
    for i in from..to
        invariant
            from <= to <= h@.len(),
            part == h@.subrange(from as int, to as int),
            forall|j: int| 0 <= j < i - from ==> !is_alphanumeric(#[trigger] part[j]),
    {
        if alphanumeric(h[i]) {
            assert(is_alphanumeric(part[i - from]));
            return true;
        }
    }
    false
}

/// Tests `labels_sound`.
fn sound_labels(h: &Vec<char>) -> (r: bool)
    ensures
        r == labels_sound(h@),
{
    let dot: [char; 1] = ['.'];
    assert(dot@ =~= seq!['.']);
    let mut at: usize = 0;
    assert(h@.skip(0) =~= h@);
    loop
        invariant
            dot@ == seq!['.'],
            at <= h@.len(),
            labels_sound(h@) == labels_sound(h@.skip(at as int)),
        decreases h@.len() - at,
    {
        let ghost left = h@.skip(at as int);
        let found = find_from(h, &dot, at);
        let end = match found {
            Some(i) => i,
            None => h.len(),
        };
        let sound = at < end && h[at] != '-' && h[end - 1] != '-';
        proof {
            let label = left.take(end - at);
            if found is None {
                assert(label =~= left);
            }
            assert(sound == is_sound_label(label));
        }
        if !sound {
            return false;
        }
        if found.is_none() {
            return true;
        }
        assert(left.skip(end - at + 1) =~= h@.skip(end + 1));
        at = end + 1;
    }
}

/// Finds the first fault of a hostname.
fn fault_of(host: &str) -> (r: Option<HostnameFault>)
    ensures
        r == hostname_fault(host@),
{
    let h = chars_of(host);
    let scheme_end: [char; 3] = [':', '/', '/'];
    let colon: [char; 1] = [':'];
    assert(scheme_end@ =~= seq![':', '/', '/']);
    assert(colon@ =~= seq![':']);
    assert(h@.skip(0) =~= h@);
    assert(h@.subrange(0, h@.len() as int) =~= h@);
    if find_from(&h, &scheme_end, 0).is_some() {
        return Some(HostnameFault::Url);
    }
    if h.len() >= 2 && h[0] == '[' && h[h.len() - 1] == ']' {
        let end = h.len() - 1;
        if h.len() == 2 || !only_ipv6_chars(&h, 1, end) {
            return Some(HostnameFault::Ipv6);
        }
        if same_text(host.substring_char(1, end), "::") || !any_alphanumeric(&h, 1, end) {
            return Some(HostnameFault::Unreachable);
        }
        return None;
    }
    proof {
        text::char_found_iff_contained(h@, ':');
    }
    if find_from(&h, &colon, 0).is_some() {
        return Some(HostnameFault::Port);
    }
    for i in 0..h.len()
        invariant
            h@ == host@,
            forall|j: int| 0 <= j < i ==> is_host_char(#[trigger] h@[j]),
            !is_bracketed(h@),
            !h@.contains(':'),
            text::find(h@, seq![':', '/', '/']) is None,
    {
        if !host_char(h[i]) {
            return Some(HostnameFault::Character);
        }
    }
    if same_text(host, "0.0.0.0") || !any_alphanumeric(&h, 0, h.len()) || !sound_labels(&h) {
        return Some(HostnameFault::Unreachable);
    }
    None
}

/// Requires a display hostname to be a bare host that can be reached. The
/// scheme, the port and the trailing slash of a printed URL are supplied
/// around it, so a hostname that brings its own would corrupt the URL, and so
/// would a character that ends the host part of one.
pub fn validate_hostname(host: &str) -> (r: Result<(), HostnameError>)
    ensures
        match r {
            Ok(()) => hostname_fault(host@) is None,
            Err(e) => hostname_fault(host@) == Some(e.fault) && e.host@ == host@,
        },
{
    match fault_of(host) {
        Some(fault) => Err(HostnameError { fault, host: host.to_owned() }),
        None => Ok(()),
    }
}

/// The hostname that is asked for.
fn chosen(flag: Option<&str>, env: Option<&str>) -> (r: Option<String>)
    ensures
        text::opt_text(r) == hostname_choice(display::opt_str(flag), display::opt_str(env)),
{
    let raw = match flag {
        Some(h) => Some(h),
        None => env,
    };
    match raw {
        Some(text) => {
            let host = trim(text);
            if host.as_str().is_empty() {
                None
            } else if ipv6_address(host.as_str()) {
                let mut bracketed = "[".to_owned();
                bracketed.append(host.as_str());
                bracketed.append("]");
                Some(bracketed)
            } else {
                Some(host)
            }
        },
        None => None,
    }
}

/// Resolves the display hostname from the `--hostname` flag, else from the
/// value of `$DPCP_HOSTNAME`. A blank value means no hostname, so a blank flag
/// cancels an inherited variable. A bare IPv6 address gets its brackets. A
/// hostname that cannot be used counts as none: what is only displayed must
/// not stop an allocation.
pub fn resolve_hostname(flag: Option<String>, env: Option<String>) -> (r: Result<
    Option<String>,
    HostnameError,
>)
    ensures
        r is Ok,
        text::opt_text(r->Ok_0) == (match hostname_choice(
            text::opt_text(flag),
            text::opt_text(env),
        ) {
            Some(h) if hostname_fault(h) is None => Some(h),
            _ => None,
        }),
{
    match chosen(as_opt_str(&flag), as_opt_str(&env)) {
        Some(host) => match validate_hostname(host.as_str()) {
            Ok(()) => Ok(Some(host)),
            Err(_) => Ok(None),
        },
        None => Ok(None),
    }
}

/// What to warn of when the display hostname is resolved: the fault of the
/// hostname that is asked for.
pub fn hostname_warning(flag: Option<&str>, env: Option<&str>) -> (r: Option<HostnameError>)
    ensures
        match (hostname_choice(display::opt_str(flag), display::opt_str(env)), r) {
            (Some(h), Some(e)) => hostname_fault(h) == Some(e.fault) && e.host@ == h,
            (Some(h), None) => hostname_fault(h) is None,
            (None, Some(e)) => false,
            (None, None) => true,
        },
{
    match chosen(flag, env) {
        Some(host) => match validate_hostname(host.as_str()) {
            Ok(()) => None,
            Err(e) => Some(e),
        },
        None => None,
    }
}

/// A flag that is given decides alone, whatever the environment holds.
pub proof fn flag_overrides_environment(
    flag: Seq<char>,
    env: Option<Seq<char>>,
    other: Option<Seq<char>>,
)
    ensures
        hostname_choice(Some(flag), env) == hostname_choice(Some(flag), other),
{
}

/// A blank flag cancels whatever hostname the environment holds.
pub proof fn blank_flag_cancels_environment(flag: Seq<char>, env: Option<Seq<char>>)
    requires
        forall|i: int| 0 <= i < flag.len() ==> text::is_whitespace(#[trigger] flag[i]),
    ensures
        hostname_choice(Some(flag), env) is None,
{
    blank_trims_to_nothing(flag);
}

proof fn blank_trims_to_nothing(s: Seq<char>)
    requires
        forall|i: int| 0 <= i < s.len() ==> text::is_whitespace(#[trigger] s[i]),
    ensures
        text::trim_start(s).len() == 0,
    decreases s.len(),
{
    if s.len() > 0 {
        blank_trims_to_nothing(s.skip(1));
    }
}

/// Without a flag and a variable there is no display hostname.
pub proof fn nothing_asked_means_no_hostname()
    ensures
        hostname_choice(None, None) is None,
{
}

/// A bare IPv6 address that names a host is used with brackets around it.
pub proof fn bare_ipv6_is_used_in_brackets(h: Seq<char>, env: Option<Seq<char>>)
    requires
        ipv6::is_ipv6_address(h),
        has_alphanumeric(h),
    ensures
        hostname_choice(Some(h), env) == Some("["@ + h + "]"@),
        hostname_fault("["@ + h + "]"@) is None,
{
    reveal_strlit("[");
    reveal_strlit("]");
    reveal_strlit("::");
    ipv6::address_has_ipv6_chars(h);
    let full = "["@ + h + "]"@;
    let k = choose|k: int| 0 <= k < h.len() && is_alphanumeric(#[trigger] h[k]);
    assert(text::trim_start(h) == h) by {
        assert(ipv6::is_ipv6_char(h[0]));
    }
    assert(text::trim_end(h) == h) by {
        assert(ipv6::is_ipv6_char(h[h.len() - 1]));
    }
    let inner = full.subrange(1, full.len() - 1);
    assert(inner =~= h);
    assert(inner != "::"@) by {
        if inner == "::"@ {
            assert(h[k] == ':');
        }
    }
    let mark = seq![':', '/', '/'];
    text::find_is_lowest(full, mark);
    if let Some(i) = text::find(full, mark) {
        assert(full.subrange(i, i + 3)[1] == full[i + 1]);
        assert(mark[1] == '/');
        if 0 < i + 1 < full.len() - 1 {
            assert(full[i + 1] == h[i]);
        }
    }
}

/// A hostname that can be used holds no character that ends the host part of
/// a URL, nor whitespace, and a `:` only inside brackets.
pub proof fn usable_hostname_has_no_delimiter(h: Seq<char>, i: int)
    requires
        hostname_fault(h) is None,
        0 <= i < h.len(),
    ensures
        h[i] != '/' && h[i] != '?' && h[i] != '#' && h[i] != '@' && !text::is_whitespace(h[i]),
        h[i] == ':' ==> is_bracketed(h),
{
    if is_bracketed(h) {
        let inner = h.subrange(1, h.len() - 1);
        if 0 < i < h.len() - 1 {
            assert(h[i] == inner[i - 1]);
        }
    } else {
        assert(is_host_char(h[i]));
    }
}

/// A hostname that can be used holds a letter or a digit.
pub proof fn usable_hostname_has_alphanumeric(h: Seq<char>)
    requires
        hostname_fault(h) is None,
    ensures
        has_alphanumeric(h),
{
    if is_bracketed(h) {
        let inner = h.subrange(1, h.len() - 1);
        let k = choose|k: int| 0 <= k < inner.len() && is_alphanumeric(#[trigger] inner[k]);
        assert(h[k + 1] == inner[k]);
    }
}

/// Whether `h` is not empty, has no `-` at either end, and has every `.`
/// between two characters that are neither `.` nor `-`.
spec fn dots_between_labels(h: Seq<char>) -> bool {
    &&& h.len() > 0
    &&& h[0] != '-'
    &&& h.last() != '-'
    &&& forall|i: int|
        0 <= i < h.len() && #[trigger] h[i] == '.' ==> {
            &&& 0 < i < h.len() - 1
            &&& h[i - 1] != '.' && h[i - 1] != '-'
            &&& h[i + 1] != '.' && h[i + 1] != '-'
        }
}

proof fn labels_are_sound_between_dots(h: Seq<char>)
    ensures
        labels_sound(h) <==> dots_between_labels(h),
    decreases h.len(),
{
    text::char_found_iff_contained(h, '.');
    if let Some(i) = text::find(h, seq!['.']) {
        let label = h.take(i);
        let rest = h.skip(i + 1);
        labels_are_sound_between_dots(rest);
        assert forall|j: int| 0 <= j < i implies h[j] != '.' by {
            assert(label[j] == h[j]);
        }
        if is_sound_label(label) && dots_between_labels(rest) {
            assert(label[0] == h[0]);
            assert(label.last() == h[i - 1]);
            assert(rest[0] == h[i + 1]);
            assert(rest[0] != '.');
            assert forall|j: int| 0 <= j < h.len() && #[trigger] h[j] == '.' implies {
                &&& 0 < j < h.len() - 1
                &&& h[j - 1] != '.' && h[j - 1] != '-'
                &&& h[j + 1] != '.' && h[j + 1] != '-'
            } by {
                if j > i {
                    let k = j - i - 1;
                    assert(rest[k] == h[j]);
                    assert(0 < k < rest.len() - 1);
                    assert(rest[k - 1] == h[j - 1]);
                    assert(rest[k + 1] == h[j + 1]);
                }
            }
        }
        if dots_between_labels(h) {
            assert(h[i] == '.');
            assert(label.last() == h[i - 1]);
            assert(rest[0] == h[i + 1]);
            assert forall|k: int| 0 <= k < rest.len() && #[trigger] rest[k] == '.' implies {
                &&& 0 < k < rest.len() - 1
                &&& rest[k - 1] != '.' && rest[k - 1] != '-'
                &&& rest[k + 1] != '.' && rest[k + 1] != '-'
            } by {
                assert(h[k + i + 1] == '.');
                assert(k != 0);
                assert(rest[k - 1] == h[k + i]);
                assert(rest[k + 1] == h[k + i + 2]);
            }
        }
    } else {
        assert(forall|i: int| 0 <= i < h.len() ==> #[trigger] h[i] != '.');
    }
}

/// A bare host can be used exactly if it is made of letters, digits, `.`, `-`
/// and `_`, holds a letter or a digit, is not `0.0.0.0`, has no `-` at either
/// end, and has no `.` at either end or next to a `.` or a `-`. How long it
/// is, or a label of it, does not matter.
pub proof fn bare_host_is_usable_iff(h: Seq<char>)
    requires
        !(h.len() >= 2 && h[0] == '[' && h[h.len() - 1] == ']'),
    ensures
        hostname_fault(h) is None <==> {
            &&& forall|i: int|
                0 <= i < h.len() ==> ('0' <= #[trigger] h[i] && h[i] <= '9') || ('a' <= h[i]
                    && h[i] <= 'z') || ('A' <= h[i] && h[i] <= 'Z') || h[i] == '.' || h[i] == '-'
                    || h[i] == '_'
            &&& exists|i: int|
                0 <= i < h.len() && (('0' <= #[trigger] h[i] && h[i] <= '9') || ('a' <= h[i]
                    && h[i] <= 'z') || ('A' <= h[i] && h[i] <= 'Z'))
            &&& h != "0.0.0.0"@
            &&& h[0] != '-' && h[h.len() - 1] != '-'
            &&& forall|i: int|
                0 <= i < h.len() && #[trigger] h[i] == '.' ==> {
                    &&& 0 < i < h.len() - 1
                    &&& h[i - 1] != '.' && h[i - 1] != '-'
                    &&& h[i + 1] != '.' && h[i + 1] != '-'
                }
        },
{
    labels_are_sound_between_dots(h);
    let mark = seq![':', '/', '/'];
    text::find_is_lowest(h, mark);
    if forall|i: int|
        0 <= i < h.len() ==> ('0' <= #[trigger] h[i] && h[i] <= '9') || ('a' <= h[i] && h[i] <= 'z')
            || ('A' <= h[i] && h[i] <= 'Z') || h[i] == '.' || h[i] == '-' || h[i] == '_' {
        if let Some(i) = text::find(h, mark) {
            assert(h.subrange(i, i + 3)[0] == h[i]);
            assert(mark[0] == ':');
        }
        assert(forall|i: int| 0 <= i < h.len() ==> is_host_char(#[trigger] h[i]));
        assert(!h.contains(':'));
    } else {
        let i = choose|i: int|
            0 <= i < h.len() && !(('0' <= #[trigger] h[i] && h[i] <= '9') || ('a' <= h[i] && h[i]
                <= 'z') || ('A' <= h[i] && h[i] <= 'Z') || h[i] == '.' || h[i] == '-' || h[i]
                == '_');
        assert(!is_host_char(h[i]));
    }
    if exists|i: int|
        0 <= i < h.len() && (('0' <= #[trigger] h[i] && h[i] <= '9') || ('a' <= h[i] && h[i] <= 'z')
            || ('A' <= h[i] && h[i] <= 'Z')) {
        let i = choose|i: int|
            0 <= i < h.len() && (('0' <= #[trigger] h[i] && h[i] <= '9') || ('a' <= h[i] && h[i]
                <= 'z') || ('A' <= h[i] && h[i] <= 'Z'));
        assert(is_alphanumeric(h[i]));
    } else if has_alphanumeric(h) {
        let i = choose|i: int| 0 <= i < h.len() && is_alphanumeric(#[trigger] h[i]);
        assert(false);
    }
}

/// A bare host that can be used is used as it is, by the flag or by the
/// environment.
pub proof fn usable_host_is_used_as_it_is(h: Seq<char>, env: Option<Seq<char>>)
    requires
        hostname_fault(h) is None,
    ensures
        hostname_choice(Some(h), env) == Some(h),
        hostname_choice(None, Some(h)) == Some(h),
{
    usable_hostname_has_alphanumeric(h);
    usable_hostname_has_no_delimiter(h, 0);
    usable_hostname_has_no_delimiter(h, h.len() - 1);
    let none = Seq::<char>::empty();
    assert(none + h + none =~= h);
    text::trimming_drops_whitespace_around(none, h, none);
    if ipv6::is_ipv6_address(h) {
        ipv6::address_has_ipv6_chars(h);
        ipv6::address_holds_a_colon(h);
        let i = choose|i: int| 0 <= i < h.len() && h[i] == ':';
        usable_hostname_has_no_delimiter(h, i);
        assert(ipv6::is_ipv6_char(h[0]));
    }
}

/// A host in brackets can be used exactly if the brackets hold a letter or a
/// digit, and nothing but hexadecimal digits, `:` and `.`.
pub proof fn bracketed_host_is_usable_iff(inner: Seq<char>)
    ensures
        hostname_fault(seq!['['] + inner + seq![']']) is None <==> {
            &&& forall|i: int|
                0 <= i < inner.len() ==> ('0' <= #[trigger] inner[i] && inner[i] <= '9') || ('a'
                    <= inner[i] && inner[i] <= 'f') || ('A' <= inner[i] && inner[i] <= 'F')
                    || inner[i] == ':' || inner[i] == '.'
            &&& exists|i: int|
                0 <= i < inner.len() && (('0' <= #[trigger] inner[i] && inner[i] <= '9') || ('a'
                    <= inner[i] && inner[i] <= 'z') || ('A' <= inner[i] && inner[i] <= 'Z'))
        },
{
    reveal_strlit("::");
    let h = seq!['['] + inner + seq![']'];
    assert(h.subrange(1, h.len() - 1) =~= inner);
    let mark = seq![':', '/', '/'];
    text::find_is_lowest(h, mark);
    if forall|i: int|
        0 <= i < inner.len() ==> ('0' <= #[trigger] inner[i] && inner[i] <= '9') || ('a' <= inner[i]
            && inner[i] <= 'f') || ('A' <= inner[i] && inner[i] <= 'F') || inner[i] == ':'
            || inner[i] == '.' {
        assert(ipv6::all_ipv6_chars(inner));
        if let Some(i) = text::find(h, mark) {
            assert(h.subrange(i, i + 3)[1] == h[i + 1]);
            assert(mark[1] == '/');
            if i + 1 < h.len() - 1 {
                assert(h[i + 1] == inner[i]);
            }
        }
    } else {
        let i = choose|i: int|
            0 <= i < inner.len() && !(('0' <= #[trigger] inner[i] && inner[i] <= '9') || ('a'
                <= inner[i] && inner[i] <= 'f') || ('A' <= inner[i] && inner[i] <= 'F')
                || inner[i] == ':' || inner[i] == '.');
        assert(!ipv6::is_ipv6_char(inner[i]));
    }
    if exists|i: int|
        0 <= i < inner.len() && (('0' <= #[trigger] inner[i] && inner[i] <= '9') || ('a' <= inner[i]
            && inner[i] <= 'z') || ('A' <= inner[i] && inner[i] <= 'Z')) {
        let i = choose|i: int|
            0 <= i < inner.len() && (('0' <= #[trigger] inner[i] && inner[i] <= '9') || ('a'
                <= inner[i] && inner[i] <= 'z') || ('A' <= inner[i] && inner[i] <= 'Z'));
        assert(is_alphanumeric(inner[i]));
        assert(inner != "::"@) by {
            if inner == "::"@ {
                assert(inner[i] == ':');
            }
        }
    } else if has_alphanumeric(inner) {
        let i = choose|i: int| 0 <= i < inner.len() && is_alphanumeric(#[trigger] inner[i]);
        assert(false);
    }
}

/// Which fault is named: `://` anywhere in the text comes first; brackets with
/// nothing, or with another character than an address has, in them are no
/// address; else a `:` outside brackets is taken for a port; else a character
/// that no host has is named.
pub proof fn fault_is_named_in_order(h: Seq<char>)
    ensures
        ({
            let url = exists|i: int|
                0 <= i && i + 3 <= h.len() && #[trigger] h[i] == ':' && h[i + 1] == '/' && h[i + 2]
                    == '/';
            let bracketed = h.len() >= 2 && h[0] == '[' && h[h.len() - 1] == ']';
            let odd_inside = exists|i: int|
                0 < i < h.len() - 1 && !(('0' <= #[trigger] h[i] && h[i] <= '9') || ('a' <= h[i]
                    && h[i] <= 'f') || ('A' <= h[i] && h[i] <= 'F') || h[i] == ':' || h[i] == '.');
            let colon = exists|i: int| 0 <= i < h.len() && #[trigger] h[i] == ':';
            let odd = exists|i: int|
                0 <= i < h.len() && !(('0' <= #[trigger] h[i] && h[i] <= '9') || ('a' <= h[i]
                    && h[i] <= 'z') || ('A' <= h[i] && h[i] <= 'Z') || h[i] == '.' || h[i] == '-'
                    || h[i] == '_');
            &&& hostname_fault(h) == Some(HostnameFault::Url) <==> url
            &&& hostname_fault(h) == Some(HostnameFault::Ipv6) <==> !url && bracketed && (h.len()
                == 2 || odd_inside)
            &&& hostname_fault(h) == Some(HostnameFault::Port) <==> !url && !bracketed && colon
            &&& hostname_fault(h) == Some(HostnameFault::Character) <==> !url && !bracketed
                && !colon && odd
        }),
{
    let url = exists|i: int|
        0 <= i && i + 3 <= h.len() && #[trigger] h[i] == ':' && h[i + 1] == '/' && h[i + 2] == '/';
    let mark = seq![':', '/', '/'];
    text::find_is_lowest(h, mark);
    if url {
        let i = choose|i: int|
            0 <= i && i + 3 <= h.len() && #[trigger] h[i] == ':' && h[i + 1] == '/' && h[i + 2]
                == '/';
        assert(h.subrange(i, i + 3) =~= mark);
        assert(text::occurs_at(h, mark, i));
    } else if let Some(i) = text::find(h, mark) {
        let part = h.subrange(i, i + 3);
        assert(part[0] == h[i] && part[1] == h[i + 1] && part[2] == h[i + 2]);
        assert(mark[0] == ':' && mark[1] == '/' && mark[2] == '/');
    }
    if is_bracketed(h) {
        let inner = h.subrange(1, h.len() - 1);
        if exists|i: int|
            0 < i < h.len() - 1 && !(('0' <= #[trigger] h[i] && h[i] <= '9') || ('a' <= h[i] && h[i]
                <= 'f') || ('A' <= h[i] && h[i] <= 'F') || h[i] == ':' || h[i] == '.') {
            let i = choose|i: int|
                0 < i < h.len() - 1 && !(('0' <= #[trigger] h[i] && h[i] <= '9') || ('a' <= h[i]
                    && h[i] <= 'f') || ('A' <= h[i] && h[i] <= 'F') || h[i] == ':' || h[i] == '.');
            assert(!ipv6::is_ipv6_char(inner[i - 1]));
        } else {
            assert forall|j: int| 0 <= j < inner.len() implies ipv6::is_ipv6_char(
                #[trigger] inner[j],
            ) by {
                assert(inner[j] == h[j + 1]);
            }
        }
    } else {
        assert(h.contains(':') <==> exists|i: int| 0 <= i < h.len() && #[trigger] h[i] == ':');
        if exists|i: int| 0 <= i < h.len() && !is_host_char(#[trigger] h[i]) {
            let i = choose|i: int| 0 <= i < h.len() && !is_host_char(#[trigger] h[i]);
            assert(!is_alphanumeric(h[i]));
        } else {
            assert(forall|i: int| 0 <= i < h.len() ==> is_host_char(#[trigger] h[i]));
        }
    }
}

/// Without a flag the environment is asked, as a flag is.
pub proof fn environment_is_asked_without_flag(env: Option<Seq<char>>)
    ensures
        hostname_choice(None, env) == hostname_choice(env, None),
{
}

/// Whitespace around a hostname that is asked for does not count; what stands
/// between is asked for, in brackets if it is an IPv6 address.
pub proof fn whitespace_around_does_not_count(
    front: Seq<char>,
    core: Seq<char>,
    back: Seq<char>,
    env: Option<Seq<char>>,
)
    requires
        forall|i: int| 0 <= i < front.len() ==> text::is_whitespace(#[trigger] front[i]),
        forall|i: int| 0 <= i < back.len() ==> text::is_whitespace(#[trigger] back[i]),
        core.len() > 0,
        !text::is_whitespace(core[0]),
        !text::is_whitespace(core.last()),
    ensures
        hostname_choice(Some(front + core + back), env) == Some(
            if ipv6::is_ipv6_address(core) {
                "["@ + core + "]"@
            } else {
                core
            },
        ),
{
    text::trimming_drops_whitespace_around(front, core, back);
}

/// The message of a refusal ends with the hostname, behind words that depend
/// on the fault alone.
pub proof fn refusal_names_the_hostname(e: HostnameError)
    ensures
        e.fault is Url ==> e.message_text() == "hostname must be a bare host, not a URL: "@
            + e.host@,
        e.fault is Ipv6 ==> e.message_text() == "hostname is not a valid bracketed IPv6 literal: "@
            + e.host@,
        e.fault is Port ==> e.message_text()
            == "hostname must not include a port (bracket IPv6 as [::1]): "@ + e.host@,
        e.fault is Character ==> e.message_text()
            == "hostname may only contain letters, digits, '.', '-' and '_': "@ + e.host@,
        e.fault is Unreachable ==> e.message_text() == "hostname cannot be reached: "@ + e.host@,
{
}

} // verus!
