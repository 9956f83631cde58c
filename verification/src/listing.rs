//! What is printed of allocations.

use vstd::prelude::*;

use crate::display;
use crate::display::{as_opt_str, service_display};
use crate::glob;
use crate::glob::glob_match;
use crate::request;
use crate::request::{RequestView, ServiceRequest};
use crate::strmap::StrMap;
use crate::text;
use crate::text::same_text;

verus! {

/// An allocation, as the table holds it.
#[derive(Debug)]
pub struct Allocation {
    pub workdir: String,
    pub service: String,
    pub port: u16,
    pub scheme: Option<String>,
}

/// An allocation, with texts for its strings.
pub struct AllocationView {
    pub workdir: Seq<char>,
    pub service: Seq<char>,
    pub port: u16,
    pub scheme: Option<Seq<char>>,
}

impl View for Allocation {
    type V = AllocationView;

    open spec fn view(&self) -> AllocationView {
        AllocationView {
            workdir: self.workdir@,
            service: self.service@,
            port: self.port,
            scheme: text::opt_text(self.scheme),
        }
    }
}

/// The allocations of a list.
pub open spec fn allocation_views(rows: Seq<Allocation>) -> Seq<AllocationView> {
    rows.map_values(|a: Allocation| a@)
}

/// Which working directories are listed.
#[derive(Debug)]
pub enum ListFilter {
    All,
    /// The one that is current.
    CurrentDirectory,
    /// Those that match a glob.
    Pattern(String),
}

/// Reads the argument of a listing: `.` is the current directory, and anything
/// else a glob.
pub fn list_filter(glob: Option<String>) -> (r: ListFilter)
    ensures
        match text::opt_text(glob) {
            None => r is All,
            Some(g) => if g == "."@ {
                r is CurrentDirectory
            } else {
                r matches ListFilter::Pattern(p) && p@ == g
            },
        },
{
    match glob {
        None => ListFilter::All,
        Some(g) => if same_text(g.as_str(), ".") {
            ListFilter::CurrentDirectory
        } else {
            ListFilter::Pattern(g)
        },
    }
}

/// The line of a service.
pub open spec fn service_line_text(
    service: Seq<char>,
    port: u16,
    scheme: Option<Seq<char>>,
    hostname: Option<Seq<char>>,
) -> Seq<char> {
    "  "@ + service + ": "@ + display::display_text(port, scheme, hostname)
}

/// Writes the line of a service.
fn service_line(service: &str, port: u16, scheme: Option<&str>, hostname: Option<&str>) -> (r:
    String)
    ensures
        r@ == service_line_text(
            service@,
            port,
            display::opt_str(scheme),
            display::opt_str(hostname),
        ),
{
    let mut out = "  ".to_owned();
    out.append(service);
    out.append(": ");
    out.append(service_display(port, scheme, hostname).as_str());
    out
}

/// Whether an allocation is listed.
pub open spec fn is_listed(row: AllocationView, pattern: Option<Seq<char>>) -> bool {
    match pattern {
        Some(p) => glob::glob_matches(p, row.workdir),
        None => true,
    }
}

/// The allocations that are listed.
pub open spec fn listed(rows: Seq<AllocationView>, pattern: Option<Seq<char>>) -> Seq<
    AllocationView,
> {
    rows.filter(|row: AllocationView| is_listed(row, pattern))
}

/// Whether the working directory of row `i` is printed above it: it differs
/// from the row before, or, at the top, from the empty text.
pub open spec fn is_headed(rows: Seq<AllocationView>, i: int) -> bool {
    rows[i].workdir != (if i > 0 {
        rows[i - 1].workdir
    } else {
        Seq::empty()
    })
}

/// The lines of the rows: each working directory above its services.
pub open spec fn row_lines(rows: Seq<AllocationView>, hostname: Option<Seq<char>>) -> Seq<Seq<char>>
    decreases rows.len(),
{
    if rows.len() == 0 {
        Seq::empty()
    } else {
        let row = rows.last();
        let front = row_lines(rows.drop_last(), hostname);
        let headed = if is_headed(rows, rows.len() - 1) {
            front.push(row.workdir)
        } else {
            front
        };
        headed.push(service_line_text(row.service, row.port, row.scheme, hostname))
    }
}

/// The lines of a listing.
pub open spec fn listing(
    rows: Seq<AllocationView>,
    pattern: Option<Seq<char>>,
    hostname: Option<Seq<char>>,
) -> Seq<Seq<char>> {
    let shown = listed(rows, pattern);
    if shown.len() == 0 {
        seq!["No allocations."@]
    } else {
        row_lines(shown, hostname)
    }
}

/// Lists the allocations whose working directories match `pattern`, or all of
/// them, each working directory above its services.
pub fn list_lines(rows: &Vec<Allocation>, pattern: Option<&str>, hostname: Option<&str>) -> (r: Vec<
    String,
>)
    ensures
        text::texts(r@) == listing(
            allocation_views(rows@),
            display::opt_str(pattern),
            display::opt_str(hostname),
        ),
{
    let ghost views = allocation_views(rows@);
    let ghost p = display::opt_str(pattern);
    let ghost h = display::opt_str(hostname);
    let ghost pred = |row: AllocationView| is_listed(row, p);
    let mut lines: Vec<String> = Vec::new();
    let mut any = false;
    let mut current = String::new();
    assert(views.take(0).filter(pred) =~= Seq::<AllocationView>::empty()) by {
        reveal(Seq::filter);
    }
    assert(text::texts(lines@) =~= Seq::<Seq<char>>::empty());
    for i in 0..rows.len()
        invariant
            views == allocation_views(rows@),
            p == display::opt_str(pattern),
            h == display::opt_str(hostname),
            pred == (|row: AllocationView| is_listed(row, p)),
            text::texts(lines@) == row_lines(views.take(i as int).filter(pred), h),
            any == (views.take(i as int).filter(pred).len() > 0),
            current@ == (if any {
                views.take(i as int).filter(pred).last().workdir
            } else {
                Seq::empty()
            }),
    {
        let row = &rows[i];
        let show = match pattern {
            Some(g) => glob_match(g, row.workdir.as_str()),
            None => true,
        };
        let ghost shown = views.take(i as int).filter(pred);
        let ghost before = text::texts(lines@);
        proof {
            assert(views[i as int] == row@);
            assert(views.take(i + 1).drop_last() =~= views.take(i as int));
            assert(views.take(i + 1).last() == row@);
            reveal(Seq::filter);
            assert(show == pred(row@));
        }
        if show {
            let ghost now = shown.push(row@);
            assert(views.take(i + 1).filter(pred) == now);
            assert(now.drop_last() =~= shown);
            let fresh = !same_text(row.workdir.as_str(), current.as_str());
            assert(fresh == is_headed(now, now.len() - 1));
            if fresh {
                lines.push(row.workdir.as_str().to_owned());
                current = row.workdir.as_str().to_owned();
                assert(text::texts(lines@) =~= before.push(row@.workdir));
            }
            let ghost headed = text::texts(lines@);
            let line = service_line(
                row.service.as_str(),
                row.port,
                as_opt_str(&row.scheme),
                hostname,
            );
            let ghost written = line@;
            lines.push(line);
            any = true;
            assert(text::texts(lines@) =~= headed.push(written));
        }
    }
    assert(views.take(views.len() as int) =~= views);
    if !any {
        let ghost empty = text::texts(lines@);
        lines.push("No allocations.".to_owned());
        proof {
            assert(empty.len() == 0);
            assert(lines@.len() == 1);
            assert(text::texts(lines@) =~= seq!["No allocations."@]);
        }
    }
    lines
}

/// Without a pattern, every allocation is listed.
pub proof fn without_pattern_all_is_listed(rows: Seq<AllocationView>)
    ensures
        listed(rows, None) == rows,
    decreases rows.len(),
{
    reveal(Seq::filter);
    if rows.len() > 0 {
        without_pattern_all_is_listed(rows.drop_last());
        assert(rows =~= rows.drop_last().push(rows.last()));
    } else {
        assert(listed(rows, None) =~= rows);
    }
}

/// An allocation is listed exactly when its working directory fits the
/// pattern, and every allocation that is listed is one of the table.
pub proof fn listed_allocations_fit_the_pattern(
    rows: Seq<AllocationView>,
    pattern: Seq<char>,
    row: AllocationView,
)
    ensures
        listed(rows, Some(pattern)).contains(row) <==> rows.contains(row) && glob::glob_matches(
            pattern,
            row.workdir,
        ),
{
    let pred = |r: AllocationView| is_listed(r, Some(pattern));
    let shown = rows.filter(pred);
    broadcast use vstd::seq_lib::group_filter_ensures;

    if shown.contains(row) {
        let i = choose|i: int| 0 <= i < shown.len() && shown[i] == row;
        assert(pred(shown[i]));
        rows.lemma_filter_contains_rev(pred, row);
    }
    if rows.contains(row) && glob::glob_matches(pattern, row.workdir) {
        let i = choose|i: int| 0 <= i < rows.len() && rows[i] == row;
        assert(pred(rows[i]));
        assert(shown.contains(rows[i]));
    }
}

/// Every allocation that is listed has its line.
pub proof fn every_listed_service_is_printed(
    rows: Seq<AllocationView>,
    hostname: Option<Seq<char>>,
    i: int,
)
    requires
        0 <= i < rows.len(),
    ensures
        row_lines(rows, hostname).contains(
            service_line_text(rows[i].service, rows[i].port, rows[i].scheme, hostname),
        ),
    decreases rows.len(),
{
    let line = service_line_text(rows[i].service, rows[i].port, rows[i].scheme, hostname);
    let all = row_lines(rows, hostname);
    if i == rows.len() - 1 {
        assert(all[all.len() - 1] == line);
    } else {
        let front = row_lines(rows.drop_last(), hostname);
        every_listed_service_is_printed(rows.drop_last(), hostname, i);
        let j = choose|j: int| 0 <= j < front.len() && front[j] == line;
        assert(all[j] == line);
    }
}

/// When the rows are in order of their working directories, each of them is
/// printed once: above its first service.
pub proof fn each_directory_is_headed_once(rows: Seq<AllocationView>, i: int)
    requires
        forall|a: int, b: int|
            0 <= a < b < rows.len() ==> text::text_le(
                #[trigger] rows[a].workdir,
                #[trigger] rows[b].workdir,
            ),
        0 <= i < rows.len(),
        rows[i].workdir.len() > 0,
    ensures
        is_headed(rows, i) <==> forall|j: int|
            0 <= j < i ==> #[trigger] rows[j].workdir != rows[i].workdir,
{
    if is_headed(rows, i) {
        assert forall|j: int| 0 <= j < i implies #[trigger] rows[j].workdir != rows[i].workdir by {
            if rows[j].workdir == rows[i].workdir && j < i - 1 {
                assert(text::text_le(rows[j].workdir, rows[i - 1].workdir));
                assert(text::text_le(rows[i - 1].workdir, rows[i].workdir));
                text::text_le_is_antisymmetric(rows[i - 1].workdir, rows[i].workdir);
            }
        }
    } else {
        assert(i > 0);
        assert(rows[i - 1].workdir == rows[i].workdir);
    }
}

/// The lines that are printed of a run: the working directory, and the port of
/// each request.
pub open spec fn report(
    dir: Seq<char>,
    requests: Seq<RequestView>,
    ports: Map<Seq<char>, u16>,
    hostname: Option<Seq<char>>,
) -> Seq<Seq<char>> {
    seq![dir] + requests.map_values(
        |r: RequestView| service_line_text(r.name, ports[r.name], r.scheme, hostname),
    )
}

/// Prints a run: the working directory, and the port of each request.
pub fn report_lines(
    dir: &str,
    requests: &Vec<ServiceRequest>,
    ports: &StrMap<u16>,
    hostname: Option<&str>,
) -> (r: Vec<String>)
    requires
        forall|i: int|
            0 <= i < requests@.len() ==> ports@.contains_key(#[trigger] requests@[i].name@),
    ensures
        text::texts(r@) == report(
            dir@,
            request::request_views(requests@),
            ports@,
            display::opt_str(hostname),
        ),
{
    let ghost h = display::opt_str(hostname);
    let ghost views = request::request_views(requests@);
    let ghost whole = report(dir@, views, ports@, h);
    let mut lines: Vec<String> = Vec::new();
    lines.push(dir.to_owned());
    assert(text::texts(lines@) =~= whole.take(1));
    for i in 0..requests.len()
        invariant
            h == display::opt_str(hostname),
            views == request::request_views(requests@),
            whole == report(dir@, views, ports@, h),
            forall|i: int|
                0 <= i < requests@.len() ==> ports@.contains_key(#[trigger] requests@[i].name@),
            text::texts(lines@) == whole.take(i + 1),
    {
        let r = &requests[i];
        assert(ports@.contains_key(requests@[i as int].name@));
        assert(views[i as int] == r@);
        if let Some(port) = ports.get(r.name.as_str()) {
            let ghost before = text::texts(lines@);
            let line = service_line(r.name.as_str(), *port, as_opt_str(&r.scheme), hostname);
            assert(line@ == whole[i + 1]);
            lines.push(line);
            assert(text::texts(lines@) =~= before.push(whole[i + 1]));
            assert(whole.take(i + 2) =~= whole.take(i + 1).push(whole[i + 1]));
        }
    }
    assert(whole.take(whole.len() as int) =~= whole);
    lines
}

/// What one more row adds to a listing of all rows: its working directory, if
/// it is not that of the row in front, and then the line of its service. The
/// first row has its working directory above it unless that is the empty text.
pub proof fn one_more_row_is_listed(
    rows: Seq<AllocationView>,
    row: AllocationView,
    hostname: Option<Seq<char>>,
)
    ensures
        ({
            let before = listing(rows, None, hostname);
            let after = listing(rows.push(row), None, hostname);
            let line = "  "@ + row.service + ": "@ + display::display_text(
                row.port,
                row.scheme,
                hostname,
            );
            if rows.len() == 0 {
                &&& before == seq!["No allocations."@]
                &&& after == (if row.workdir.len() == 0 {
                    seq![line]
                } else {
                    seq![row.workdir, line]
                })
            } else if row.workdir == rows[rows.len() - 1].workdir {
                after == before.push(line)
            } else {
                after == before.push(row.workdir).push(line)
            }
        }),
{
    let all = rows.push(row);
    without_pattern_all_is_listed(rows);
    without_pattern_all_is_listed(all);
    assert(all.drop_last() =~= rows);
    assert(all.last() == row);
    if rows.len() == 0 {
        let line = service_line_text(row.service, row.port, row.scheme, hostname);
        assert(row_lines(rows, hostname).len() == 0);
        if row.workdir.len() == 0 {
            assert(row.workdir =~= Seq::empty());
            assert(row_lines(all, hostname) =~= seq![line]);
        } else {
            assert(row_lines(all, hostname) =~= seq![row.workdir, line]);
        }
    } else {
        assert(all[rows.len() - 1] == rows[rows.len() - 1]);
    }
}

/// A listing with a pattern is the listing of the rows whose working
/// directories fit it, in their order.
pub proof fn pattern_selects_rows(
    rows: Seq<AllocationView>,
    pattern: Seq<char>,
    hostname: Option<Seq<char>>,
)
    ensures
        listing(rows, Some(pattern), hostname) == listing(
            rows.filter(|row: AllocationView| glob::glob_matches(pattern, row.workdir)),
            None,
            hostname,
        ),
{
    let fits = |row: AllocationView| glob::glob_matches(pattern, row.workdir);
    let shown = |row: AllocationView| is_listed(row, Some(pattern));
    assert(fits =~= shown);
    without_pattern_all_is_listed(rows.filter(fits));
}

/// The lines of the rows in front are the front of the listing, and each of
/// them ends with the line of its last service. Directly above a service whose
/// working directory is not that of the row in front stands that working
/// directory; directly above any other stands the line of the row in front. The
/// first service stands under its working directory unless that is the empty
/// text.
pub proof fn service_stands_under_its_directory(
    rows: Seq<AllocationView>,
    hostname: Option<Seq<char>>,
    i: int,
)
    requires
        0 <= i < rows.len(),
    ensures
        ({
            let lines = listing(rows, None, hostname);
            let n = listing(rows.take(i + 1), None, hostname).len() as int;
            &&& listing(rows.take(i + 1), None, hostname) == lines.take(n)
            &&& 1 <= n <= lines.len()
            &&& lines[n - 1] == "  "@ + rows[i].service + ": "@ + display::display_text(
                rows[i].port,
                rows[i].scheme,
                hostname,
            )
            &&& i == 0 && rows[i].workdir.len() > 0 ==> n >= 2 && lines[n - 2] == rows[i].workdir
            &&& i > 0 && rows[i].workdir != rows[i - 1].workdir ==> n >= 2 && lines[n - 2]
                == rows[i].workdir
            &&& i > 0 && rows[i].workdir == rows[i - 1].workdir ==> n >= 2 && lines[n - 2] == "  "@
                + rows[i - 1].service + ": "@ + display::display_text(
                rows[i - 1].port,
                rows[i - 1].scheme,
                hostname,
            )
        }),
    decreases rows.len(),
{
    let front = rows.drop_last();
    let row = rows.last();
    let lines = listing(rows, None, hostname);
    assert(rows =~= front.push(row));
    one_more_row_is_listed(front, row, hostname);
    if i < rows.len() - 1 {
        service_stands_under_its_directory(front, hostname, i);
        assert(front.take(i + 1) =~= rows.take(i + 1));
        let n = listing(rows.take(i + 1), None, hostname).len() as int;
        let before = listing(front, None, hostname);
        assert(before.take(n) =~= lines.take(n));
        assert(before[n - 1] == lines[n - 1]);
        if n >= 2 {
            assert(before[n - 2] == lines[n - 2]);
        }
        assert(front[i] == rows[i]);
        if i > 0 {
            assert(front[i - 1] == rows[i - 1]);
        }
    } else {
        assert(rows.take(i + 1) =~= rows);
        assert(lines.take(lines.len() as int) =~= lines);
        if front.len() > 0 {
            service_stands_under_its_directory(front, hostname, i - 1);
            assert(front.take(i) =~= front);
            assert(front[i - 1] == rows[i - 1]);
        }
    }
}

/// A report is the working directory and then one line for each request, in
/// their order: the service, and its assigned port as it is shown.
pub proof fn report_shows_assigned_ports(
    dir: Seq<char>,
    requests: Seq<RequestView>,
    ports: Map<Seq<char>, u16>,
    hostname: Option<Seq<char>>,
    i: int,
)
    ensures
        report(dir, requests, ports, hostname).len() == requests.len() + 1,
        report(dir, requests, ports, hostname)[0] == dir,
        0 <= i < requests.len() ==> ({
            let lines = report(dir, requests, ports, hostname);
            let number = text::decimal(ports[requests[i].name] as nat);
            let line = lines[i + 1];
            let front = "  "@ + requests[i].name + ": "@;
            let web = requests[i].scheme == Some("http"@) || requests[i].scheme == Some("https"@);
            let host = match hostname {
                Some(h) => h,
                None => "127.0.0.1"@,
            };
            &&& web ==> line == front + requests[i].scheme->0 + "://"@ + host + ":"@ + number
                + "/"@
            &&& !web && hostname is None ==> line == front + number
            &&& !web && hostname is Some ==> line == front + host + ":"@ + number
        }),
{
    if 0 <= i < requests.len() {
        let r = requests[i];
        let port = ports[r.name];
        let number = text::decimal(port as nat);
        let front = "  "@ + r.name + ": "@;
        let line = report(dir, requests, ports, hostname)[i + 1];
        assert(line == front + display::display_text(port, r.scheme, hostname));
        if r.scheme == Some("http"@) || r.scheme == Some("https"@) {
            let host = match hostname {
                Some(h) => h,
                None => "127.0.0.1"@,
            };
            display::web_service_is_shown_as_url(port, r.scheme->0, hostname);
            assert(line =~= front + r.scheme->0 + "://"@ + host + ":"@ + number + "/"@);
        } else {
            display::other_service_is_shown_by_its_port(port, r.scheme, hostname);
            if let Some(h) = hostname {
                assert(line =~= front + h + ":"@ + number);
            }
        }
    }
}

/// Requests that differ in nothing but their default ports and the names of
/// their variables are reported alike.
pub proof fn defaults_do_not_show_in_a_report(
    dir: Seq<char>,
    a: Seq<RequestView>,
    b: Seq<RequestView>,
    ports: Map<Seq<char>, u16>,
    hostname: Option<Seq<char>>,
)
    requires
        a.len() == b.len(),
        forall|i: int|
            0 <= i < a.len() ==> (#[trigger] a[i]).name == b[i].name && a[i].scheme == b[i].scheme,
    ensures
        report(dir, a, ports, hostname) == report(dir, b, ports, hostname),
{
    let x = report(dir, a, ports, hostname);
    let y = report(dir, b, ports, hostname);
    assert forall|k: int| 0 <= k < x.len() implies x[k] == y[k] by {
        if k > 0 {
            assert(a[k - 1].name == b[k - 1].name && a[k - 1].scheme == b[k - 1].scheme);
        }
    }
    assert(x =~= y);
}

/// A list of allocations is seen entry by entry, in the same order, with every
/// field as it is.
pub proof fn allocations_are_seen_as_they_are(rows: Seq<Allocation>, i: int)
    requires
        0 <= i < rows.len(),
    ensures
        allocation_views(rows).len() == rows.len(),
        allocation_views(rows)[i].workdir == rows[i].workdir@,
        allocation_views(rows)[i].service == rows[i].service@,
        allocation_views(rows)[i].port == rows[i].port,
        match rows[i].scheme {
            Some(s) => allocation_views(rows)[i].scheme == Some(s@),
            None => allocation_views(rows)[i].scheme is None,
        },
{
}

} // verus!
