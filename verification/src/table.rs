//! The table of allocations, and what a run of allocations, a release and a
//! collection make of it.

use vstd::prelude::*;

use crate::allocate;
use crate::allocate::{ActionView, Reply, RunView, Stage};
use crate::request::RequestView;

verus! {

/// A row of the table, under its working directory and service.
pub struct Row {
    pub port: u16,
    pub scheme: Option<Seq<char>>,
}

/// The rows, under their working directories and services.
pub type Table = Map<(Seq<char>, Seq<char>), Row>;

/// Whether a row has the port.
pub open spec fn port_taken(table: Table, port: u16) -> bool {
    exists|k: (Seq<char>, Seq<char>)| #[trigger] table.contains_key(k) && table[k].port == port
}

/// Whether no two rows have one port.
pub open spec fn ports_unique(table: Table) -> bool {
    forall|a: (Seq<char>, Seq<char>), b: (Seq<char>, Seq<char>)|
        #[trigger] table.contains_key(a) && #[trigger] table.contains_key(b) && a != b
            ==> table[a].port != table[b].port
}

/// Whether a port can be given: no row has it, and the host has it unbound.
pub open spec fn port_free(table: Table, bound: Set<u16>, port: u16) -> bool {
    !port_taken(table, port) && !bound.contains(port)
}

/// What an action for the working directory `dir` makes of the table, and the
/// true answer to it.
pub open spec fn performed(
    table: Table,
    bound: Set<u16>,
    dir: Seq<char>,
    action: ActionView,
) -> (Table, Reply) {
    match action {
        ActionView::FindAllocation { service } => (
            table,
            Reply::Allocation {
                port: if table.contains_key((dir, service)) {
                    Some(table[(dir, service)].port)
                } else {
                    None
                },
            },
        ),
        ActionView::SetScheme { service, scheme } => (
            if table.contains_key((dir, service)) {
                table.insert(
                    (dir, service),
                    Row { port: table[(dir, service)].port, scheme },
                )
            } else {
                table
            },
            Reply::SchemeSet,
        ),
        ActionView::FindPort { port } => (table, Reply::PortTaken { taken: port_taken(table, port) }),
        ActionView::ProbePort { port } => (table, Reply::PortBound { bound: bound.contains(port) }),
        ActionView::AddAllocation { service, port, scheme } => (
            table.insert((dir, service), Row { port, scheme }),
            Reply::Added,
        ),
        ActionView::Finished => (table, Reply::SchemeSet),
        ActionView::PortsExhausted => (table, Reply::SchemeSet),
    }
}

/// Whether the run asks for nothing more.
pub open spec fn halted(run: RunView) -> bool {
    allocate::pending(run) is Finished || allocate::pending(run) is PortsExhausted
}

/// The run and the table at the end, when every action is performed and
/// answered truly.
pub open spec fn run_to_end(
    run: RunView,
    table: Table,
    bound: Set<u16>,
    dir: Seq<char>,
) -> (RunView, Table)
    decreases run.requests.len() - run.done, allocate::stage_weight(run.stage),
{
    if halted(run) {
        (run, table)
    } else {
        let (next, reply) = performed(table, bound, dir, allocate::pending(run));
        run_to_end(allocate::after_reply(run, reply), next, bound, dir)
    }
}

/// The lowest port, from `from` on, that can be given.
pub open spec fn lowest_free(table: Table, bound: Set<u16>, from: int) -> Option<u16>
    decreases 65536 - from,
{
    if from < 0 || from > u16::MAX {
        None
    } else if port_free(table, bound, from as u16) {
        Some(from as u16)
    } else {
        lowest_free(table, bound, from + 1)
    }
}

/// `lowest_free` gives a port that can be given, from `from` on, with none
/// below it, and fails only when there is none.
pub proof fn lowest_free_is_lowest(table: Table, bound: Set<u16>, from: u16)
    ensures
        match lowest_free(table, bound, from as int) {
            Some(p) => from <= p && port_free(table, bound, p) && forall|q: u16|
                from <= q < p ==> !#[trigger] port_free(table, bound, q),
            None => forall|q: u16| from <= q ==> !#[trigger] port_free(table, bound, q),
        },
    decreases 65536 - from,
{
    if !port_free(table, bound, from) {
        if from < u16::MAX {
            let next = (from + 1) as u16;
            lowest_free_is_lowest(table, bound, next);
            assert(next == from + 1);
        } else {
            assert(lowest_free(table, bound, from + 1) is None);
        }
    }
}

/// What allocating the requests makes of the table.
pub struct Outcome {
    pub table: Table,
    pub ports: Map<Seq<char>, u16>,
    pub complete: bool,
}

/// The port that a request of the working directory gets: the one that its
/// service has, else the lowest one, from its default on, that can be given.
pub open spec fn port_for(
    table: Table,
    bound: Set<u16>,
    dir: Seq<char>,
    r: RequestView,
) -> Option<u16> {
    if table.contains_key((dir, r.name)) {
        Some(table[(dir, r.name)].port)
    } else {
        lowest_free(table, bound, r.default_port as int)
    }
}

/// Allocates the requests from the one at `i` on. A service that has a row
/// keeps its port, and its row takes the request's scheme; another gets the
/// lowest port, from its default on, that can be given. Without such a port
/// the rest is left out.
pub open spec fn allocated_from(
    table: Table,
    bound: Set<u16>,
    dir: Seq<char>,
    requests: Seq<RequestView>,
    i: int,
    ports: Map<Seq<char>, u16>,
) -> Outcome
    decreases requests.len() - i,
{
    if i >= requests.len() {
        Outcome { table, ports, complete: true }
    } else {
        let r = requests[i];
        let key = (dir, r.name);
        match port_for(table, bound, dir, r) {
            Some(port) => allocated_from(
                table.insert(key, Row { port, scheme: r.scheme }),
                bound,
                dir,
                requests,
                i + 1,
                ports.insert(r.name, port),
            ),
            None => Outcome { table, ports, complete: false },
        }
    }
}

/// Allocates the requests of a working directory.
pub open spec fn allocated(
    table: Table,
    bound: Set<u16>,
    dir: Seq<char>,
    requests: Seq<RequestView>,
) -> Outcome {
    allocated_from(table, bound, dir, requests, 0, Map::empty())
}

/// Whether the run ended as the outcome says.
pub open spec fn ends_as(end: (RunView, Table), outcome: Outcome) -> bool {
    &&& end.1 == outcome.table
    &&& end.0.assignments == outcome.ports
    &&& allocate::pending(end.0) == (if outcome.complete {
        ActionView::Finished
    } else {
        ActionView::PortsExhausted
    })
}

/// A run that is performed and answered truly ends, with the table, the ports
/// and the verdict of `allocated`.
pub proof fn run_allocates(
    requests: Seq<RequestView>,
    table: Table,
    bound: Set<u16>,
    dir: Seq<char>,
)
    ensures
        ends_as(
            run_to_end(allocate::start(requests), table, bound, dir),
            allocated(table, bound, dir, requests),
        ),
{
    run_allocates_from(allocate::start(requests), table, bound, dir);
}

proof fn run_allocates_from(run: RunView, table: Table, bound: Set<u16>, dir: Seq<char>)
    requires
        run.stage is Lookup,
        0 <= run.done,
    ensures
        ends_as(
            run_to_end(run, table, bound, dir),
            allocated_from(table, bound, dir, run.requests, run.done, run.assignments),
        ),
    decreases run.requests.len() - run.done,
{
    if run.done < run.requests.len() {
        let r = run.requests[run.done];
        let key = (dir, r.name);
        if table.contains_key(key) {
            let port = table[key].port;
            let keep = RunView { stage: Stage::Keep { port }, ..run };
            assert(allocate::after_reply(run, Reply::Allocation { port: Some(port) }) == keep);
            assert(run_to_end(run, table, bound, dir) == run_to_end(keep, table, bound, dir));
            let after = table.insert(key, Row { port, scheme: r.scheme });
            let next = allocate::settled(run, port);
            assert(allocate::settled(keep, port) == next);
            assert(run_to_end(keep, table, bound, dir) == run_to_end(next, after, bound, dir));
            run_allocates_from(next, after, bound, dir);
        } else {
            let check = RunView { stage: Stage::CheckTable { port: r.default_port }, ..run };
            assert(allocate::after_reply(run, Reply::Allocation { port: None }) == check);
            assert(run_to_end(run, table, bound, dir) == run_to_end(check, table, bound, dir));
            search_finds_lowest(run, r.default_port, table, bound, dir);
            if let Some(port) = lowest_free(table, bound, r.default_port as int) {
                run_allocates_from(
                    allocate::settled(run, port),
                    table.insert(key, Row { port, scheme: r.scheme }),
                    bound,
                    dir,
                );
            }
        }
    }
}

/// The search for a port ends with the lowest one that can be given.
proof fn search_finds_lowest(
    run: RunView,
    from: u16,
    table: Table,
    bound: Set<u16>,
    dir: Seq<char>,
)
    requires
        run.stage is Lookup,
        0 <= run.done < run.requests.len(),
    ensures
        ({
            let r = run.requests[run.done];
            let check = RunView { stage: Stage::CheckTable { port: from }, ..run };
            let end = run_to_end(check, table, bound, dir);
            match lowest_free(table, bound, from as int) {
                Some(port) => end == run_to_end(
                    allocate::settled(run, port),
                    table.insert((dir, r.name), Row { port, scheme: r.scheme }),
                    bound,
                    dir,
                ),
                None => end == (RunView { stage: Stage::Exhausted, ..run }, table),
            }
        }),
    decreases 65536 - from,
{
    let r = run.requests[run.done];
    let check = RunView { stage: Stage::CheckTable { port: from }, ..run };
    let taken = port_taken(table, from);
    let checked = allocate::after_reply(check, Reply::PortTaken { taken });
    assert(run_to_end(check, table, bound, dir) == run_to_end(checked, table, bound, dir));
    let behind = RunView { stage: allocate::beyond(from), ..run };
    if !taken {
        let probe = RunView { stage: Stage::CheckHost { port: from }, ..run };
        assert(checked == probe);
        let busy = bound.contains(from);
        let probed = allocate::after_reply(probe, Reply::PortBound { bound: busy });
        assert(run_to_end(probe, table, bound, dir) == run_to_end(probed, table, bound, dir));
        if busy {
            assert(probed == behind);
        } else {
            let add = RunView { stage: Stage::Add { port: from }, ..run };
            assert(probed == add);
            assert(allocate::settled(add, from) == allocate::settled(run, from));
            assert(run_to_end(add, table, bound, dir) == run_to_end(
                allocate::settled(run, from),
                table.insert((dir, r.name), Row { port: from, scheme: r.scheme }),
                bound,
                dir,
            ));
        }
    } else {
        assert(checked == behind);
    }
    if !port_free(table, bound, from) {
        if from < u16::MAX {
            search_finds_lowest(run, (from + 1) as u16, table, bound, dir);
        } else {
            assert(lowest_free(table, bound, from + 1) is None);
            assert(run_to_end(behind, table, bound, dir) == (behind, table));
        }
    }
}

/// Whether what the run has found out is true of the table and the host.
pub open spec fn in_step(run: RunView, table: Table, bound: Set<u16>, dir: Seq<char>) -> bool {
    let key = (dir, run.requests[run.done].name);
    match run.stage {
        Stage::Lookup => true,
        Stage::Keep { port } => table.contains_key(key) && table[key].port == port,
        Stage::CheckTable { port } => !table.contains_key(key),
        Stage::CheckHost { port } => !table.contains_key(key) && !port_taken(table, port),
        Stage::Add { port } => !table.contains_key(key) && port_free(table, bound, port),
        Stage::Exhausted => true,
    }
}

/// What a run has found out stays true of the table and the host, as long as
/// the actions are performed and answered truly. So a row that is added never
/// meets one of its service, nor one of its port, nor a bound port.
pub proof fn true_answers_keep_run_in_step(
    run: RunView,
    table: Table,
    bound: Set<u16>,
    dir: Seq<char>,
)
    requires
        in_step(run, table, bound, dir),
        !halted(run),
    ensures
        ({
            let (next, reply) = performed(table, bound, dir, allocate::pending(run));
            allocate::answers(allocate::pending(run), reply) && in_step(
                allocate::after_reply(run, reply),
                next,
                bound,
                dir,
            )
        }),
        allocate::pending(run) matches ActionView::AddAllocation { service, port, scheme }
            ==> !table.contains_key((dir, service)) && port_free(table, bound, port),
{
}

/// Allocating keeps every port in at most one row.
pub proof fn allocating_keeps_ports_unique(
    table: Table,
    bound: Set<u16>,
    dir: Seq<char>,
    requests: Seq<RequestView>,
)
    requires
        ports_unique(table),
    ensures
        ports_unique(allocated(table, bound, dir, requests).table),
{
    unique_from(table, bound, dir, requests, 0, Map::empty());
}

proof fn unique_from(
    table: Table,
    bound: Set<u16>,
    dir: Seq<char>,
    requests: Seq<RequestView>,
    i: int,
    ports: Map<Seq<char>, u16>,
)
    requires
        ports_unique(table),
        0 <= i,
    ensures
        ports_unique(allocated_from(table, bound, dir, requests, i, ports).table),
    decreases requests.len() - i,
{
    if i < requests.len() {
        let r = requests[i];
        let key = (dir, r.name);
        lowest_free_is_lowest(table, bound, r.default_port);
        if table.contains_key(key) {
            let port = table[key].port;
            let after = table.insert(key, Row { port, scheme: r.scheme });
            unique_from(after, bound, dir, requests, i + 1, ports.insert(r.name, port));
        } else if let Some(port) = lowest_free(table, bound, r.default_port as int) {
            let after = table.insert(key, Row { port, scheme: r.scheme });
            assert forall|a: (Seq<char>, Seq<char>), b: (Seq<char>, Seq<char>)| #[trigger]
                after.contains_key(a) && #[trigger] after.contains_key(b) && a != b implies after[a].port
                != after[b].port by {
                if a == key {
                    assert(table.contains_key(b));
                } else if b == key {
                    assert(table.contains_key(a));
                } else {
                    assert(table.contains_key(a) && table.contains_key(b));
                }
            }
            unique_from(after, bound, dir, requests, i + 1, ports.insert(r.name, port));
        }
    }
}

/// Allocating keeps every row's port, and changes nothing of the rows of
/// another working directory or of a service that is not asked for.
pub proof fn allocating_keeps_rows(
    table: Table,
    bound: Set<u16>,
    dir: Seq<char>,
    requests: Seq<RequestView>,
    key: (Seq<char>, Seq<char>),
)
    ensures
        ({
            let after = allocated(table, bound, dir, requests).table;
            &&& table.contains_key(key) ==> after.contains_key(key) && after[key].port
                == table[key].port
            &&& key.0 != dir || (forall|i: int|
                0 <= i < requests.len() ==> #[trigger] requests[i].name != key.1) ==> (
            after.contains_key(key) == table.contains_key(key)) && (table.contains_key(key)
                ==> after[key] == table[key])
        }),
{
    rows_kept_from(table, bound, dir, requests, 0, Map::empty(), key);
}

proof fn rows_kept_from(
    table: Table,
    bound: Set<u16>,
    dir: Seq<char>,
    requests: Seq<RequestView>,
    i: int,
    ports: Map<Seq<char>, u16>,
    key: (Seq<char>, Seq<char>),
)
    requires
        0 <= i,
    ensures
        ({
            let after = allocated_from(table, bound, dir, requests, i, ports).table;
            &&& table.contains_key(key) ==> after.contains_key(key) && after[key].port
                == table[key].port
            &&& key.0 != dir || (forall|j: int|
                i <= j < requests.len() ==> #[trigger] requests[j].name != key.1) ==> (
            after.contains_key(key) == table.contains_key(key)) && (table.contains_key(key)
                ==> after[key] == table[key])
        }),
    decreases requests.len() - i,
{
    if i < requests.len() {
        let r = requests[i];
        let own = (dir, r.name);
        if let Some(port) = port_for(table, bound, dir, r) {
            let after = table.insert(own, Row { port, scheme: r.scheme });
            rows_kept_from(after, bound, dir, requests, i + 1, ports.insert(r.name, port), key);
            if key.0 != dir || (forall|j: int|
                i <= j < requests.len() ==> #[trigger] requests[j].name != key.1) {
                assert(requests[i].name != key.1 || key.0 != dir);
                assert(key != own);
            }
        }
    }
}

/// When every service has its port, each port is the one that the table holds
/// for the service.
pub proof fn ports_are_those_of_the_table(
    table: Table,
    bound: Set<u16>,
    dir: Seq<char>,
    requests: Seq<RequestView>,
    i: int,
)
    requires
        allocated(table, bound, dir, requests).complete,
        0 <= i < requests.len(),
    ensures
        ({
            let outcome = allocated(table, bound, dir, requests);
            let name = requests[i].name;
            &&& outcome.table.contains_key((dir, name))
            &&& outcome.ports.contains_key(name)
            &&& outcome.ports[name] == outcome.table[(dir, name)].port
        }),
{
    ports_match_from(table, bound, dir, requests, 0, Map::empty(), requests[i].name);
}

proof fn ports_match_from(
    table: Table,
    bound: Set<u16>,
    dir: Seq<char>,
    requests: Seq<RequestView>,
    i: int,
    ports: Map<Seq<char>, u16>,
    name: Seq<char>,
)
    requires
        0 <= i,
        allocated_from(table, bound, dir, requests, i, ports).complete,
        ports.contains_key(name) ==> table.contains_key((dir, name)) && ports[name] == table[(
            dir,
            name,
        )].port,
        ports.contains_key(name) || exists|j: int|
            i <= j < requests.len() && #[trigger] requests[j].name == name,
    ensures
        ({
            let outcome = allocated_from(table, bound, dir, requests, i, ports);
            &&& outcome.table.contains_key((dir, name))
            &&& outcome.ports.contains_key(name)
            &&& outcome.ports[name] == outcome.table[(dir, name)].port
        }),
    decreases requests.len() - i,
{
    if i < requests.len() {
        let r = requests[i];
        let own = (dir, r.name);
        if let Some(port) = port_for(table, bound, dir, r) {
            let after = table.insert(own, Row { port, scheme: r.scheme });
            let now = ports.insert(r.name, port);
            if !now.contains_key(name) {
                let j = choose|j: int|
                    i <= j < requests.len() && #[trigger] requests[j].name == name;
                assert(j != i);
            }
            ports_match_from(after, bound, dir, requests, i + 1, now, name);
        }
    }
}

/// Allocating the same requests again gives every service the port that it
/// has, whatever the host has bound by then, and adds no row.
pub proof fn allocating_again_changes_no_port(
    table: Table,
    bound: Set<u16>,
    later: Set<u16>,
    dir: Seq<char>,
    requests: Seq<RequestView>,
)
    requires
        allocated(table, bound, dir, requests).complete,
    ensures
        ({
            let first = allocated(table, bound, dir, requests);
            let again = allocated(first.table, later, dir, requests);
            &&& again.complete
            &&& again.table.dom() == first.table.dom()
            &&& forall|i: int|
                0 <= i < requests.len() ==> again.ports[#[trigger] requests[i].name]
                    == first.ports[requests[i].name]
        }),
{
    let first = allocated(table, bound, dir, requests);
    assert forall|i: int| 0 <= i < requests.len() implies first.table.contains_key(
        (dir, #[trigger] requests[i].name),
    ) by {
        ports_are_those_of_the_table(table, bound, dir, requests, i);
    }
    present_services_complete(first.table, later, dir, requests, 0, Map::empty());
    let again = allocated(first.table, later, dir, requests);
    assert forall|i: int| 0 <= i < requests.len() implies again.ports[#[trigger] requests[i].name]
        == first.ports[requests[i].name] by {
        ports_are_those_of_the_table(table, bound, dir, requests, i);
        ports_are_those_of_the_table(first.table, later, dir, requests, i);
        allocating_keeps_rows(first.table, later, dir, requests, (dir, requests[i].name));
    }
}

proof fn present_services_complete(
    table: Table,
    bound: Set<u16>,
    dir: Seq<char>,
    requests: Seq<RequestView>,
    i: int,
    ports: Map<Seq<char>, u16>,
)
    requires
        0 <= i,
        forall|j: int|
            0 <= j < requests.len() ==> table.contains_key((dir, #[trigger] requests[j].name)),
    ensures
        allocated_from(table, bound, dir, requests, i, ports).complete,
        allocated_from(table, bound, dir, requests, i, ports).table.dom() == table.dom(),
    decreases requests.len() - i,
{
    if i < requests.len() {
        let r = requests[i];
        let own = (dir, r.name);
        assert(table.contains_key((dir, requests[i].name)));
        let port = table[own].port;
        let after = table.insert(own, Row { port, scheme: r.scheme });
        assert(after.dom() =~= table.dom());
        assert forall|j: int| 0 <= j < requests.len() implies after.contains_key(
            (dir, #[trigger] requests[j].name),
        ) by {
            assert(table.contains_key((dir, requests[j].name)));
        }
        present_services_complete(after, bound, dir, requests, i + 1, ports.insert(r.name, port));
    }
}

/// Allocating the requests is allocating those in front of `i`, and then, in
/// the table that this makes, the rest; when the front cannot be completed,
/// the rest is left out.
pub proof fn allocating_splits(
    table: Table,
    bound: Set<u16>,
    dir: Seq<char>,
    requests: Seq<RequestView>,
    i: int,
)
    requires
        0 <= i <= requests.len(),
    ensures
        ({
            let front = allocated(table, bound, dir, requests.take(i));
            allocated(table, bound, dir, requests) == (if front.complete {
                allocated_from(front.table, bound, dir, requests, i, front.ports)
            } else {
                front
            })
        }),
{
    splits_from(table, bound, dir, requests, 0, Map::empty(), i);
}

proof fn splits_from(
    table: Table,
    bound: Set<u16>,
    dir: Seq<char>,
    requests: Seq<RequestView>,
    k: int,
    ports: Map<Seq<char>, u16>,
    i: int,
)
    requires
        0 <= k <= i <= requests.len(),
    ensures
        ({
            let front = allocated_from(table, bound, dir, requests.take(i), k, ports);
            allocated_from(table, bound, dir, requests, k, ports) == (if front.complete {
                allocated_from(front.table, bound, dir, requests, i, front.ports)
            } else {
                front
            })
        }),
    decreases i - k,
{
    if k < i {
        let r = requests[k];
        assert(requests.take(i)[k] == r);
        if let Some(port) = port_for(table, bound, dir, r) {
            splits_from(
                table.insert((dir, r.name), Row { port, scheme: r.scheme }),
                bound,
                dir,
                requests,
                k + 1,
                ports.insert(r.name, port),
                i,
            );
        }
    }
}

/// A port that a service gets anew is in no row before and is not bound. It is
/// the lowest port, from the default of the first request of that service on,
/// that could be given in the table as it stood at that request's turn.
pub proof fn new_port_is_lowest_free(
    table: Table,
    bound: Set<u16>,
    dir: Seq<char>,
    requests: Seq<RequestView>,
    service: Seq<char>,
)
    requires
        !table.contains_key((dir, service)),
        allocated(table, bound, dir, requests).table.contains_key((dir, service)),
    ensures
        ({
            let port = allocated(table, bound, dir, requests).table[(dir, service)].port;
            &&& port_free(table, bound, port)
            &&& exists|i: int|
                {
                    &&& 0 <= i < requests.len()
                    &&& #[trigger] requests[i].name == service
                    &&& forall|j: int| 0 <= j < i ==> #[trigger] requests[j].name != service
                    &&& lowest_free(
                        allocated(table, bound, dir, requests.take(i)).table,
                        bound,
                        requests[i].default_port as int,
                    ) == Some(port)
                }
        }),
{
    let key = (dir, service);
    allocating_keeps_rows(table, bound, dir, requests, key);
    let some = choose|i: int| 0 <= i < requests.len() && #[trigger] requests[i].name == service;
    let i = first_of_name(requests, service, some);
    let r = requests[i];
    let front = allocated(table, bound, dir, requests.take(i));
    assert forall|j: int| 0 <= j < requests.take(i).len() implies #[trigger] requests.take(i)[j].name
        != service by {
        assert(requests.take(i)[j] == requests[j]);
    }
    allocating_keeps_rows(table, bound, dir, requests.take(i), key);
    allocating_splits(table, bound, dir, requests, i);
    lowest_free_is_lowest(front.table, bound, r.default_port);
    if let Some(port) = lowest_free(front.table, bound, r.default_port as int) {
        let next = front.table.insert(key, Row { port, scheme: r.scheme });
        rows_kept_from(
            next,
            bound,
            dir,
            requests,
            i + 1,
            front.ports.insert(r.name, port),
            key,
        );
        if port_taken(table, port) {
            let k = choose|k: (Seq<char>, Seq<char>)| #[trigger]
                table.contains_key(k) && table[k].port == port;
            allocating_keeps_rows(table, bound, dir, requests.take(i), k);
            assert(front.table.contains_key(k));
        }
        assert(requests[i].name == service);
    }
}

/// The first request of a service.
proof fn first_of_name(requests: Seq<RequestView>, service: Seq<char>, some: int) -> (i: int)
    requires
        0 <= some < requests.len(),
        requests[some].name == service,
    ensures
        0 <= i <= some,
        requests[i].name == service,
        forall|j: int| 0 <= j < i ==> #[trigger] requests[j].name != service,
    decreases some,
{
    if exists|j: int| 0 <= j < some && #[trigger] requests[j].name == service {
        let j = choose|j: int| 0 <= j < some && #[trigger] requests[j].name == service;
        first_of_name(requests, service, j)
    } else {
        some
    }
}

/// When every service has its port, the row of a service carries the scheme of
/// the last request of that service.
pub proof fn requested_row_takes_scheme(
    table: Table,
    bound: Set<u16>,
    dir: Seq<char>,
    requests: Seq<RequestView>,
    i: int,
)
    requires
        allocated(table, bound, dir, requests).complete,
        0 <= i < requests.len(),
        forall|j: int| i < j < requests.len() ==> #[trigger] requests[j].name != requests[i].name,
    ensures
        ({
            let after = allocated(table, bound, dir, requests).table;
            let key = (dir, requests[i].name);
            after.contains_key(key) && after[key].scheme == requests[i].scheme
        }),
{
    let r = requests[i];
    let key = (dir, r.name);
    allocating_splits(table, bound, dir, requests, i);
    let front = allocated(table, bound, dir, requests.take(i));
    if let Some(port) = port_for(front.table, bound, dir, r) {
        rows_kept_from(
            front.table.insert(key, Row { port, scheme: r.scheme }),
            bound,
            dir,
            requests,
            i + 1,
            front.ports.insert(r.name, port),
            key,
        );
    }
}

/// The table without the rows of a working directory.
pub open spec fn released(table: Table, dir: Seq<char>) -> Table {
    Map::new(
        |k: (Seq<char>, Seq<char>)| table.contains_key(k) && k.0 != dir,
        |k: (Seq<char>, Seq<char>)| table[k],
    )
}

/// Releasing a working directory frees the ports of its rows, and leaves every
/// other row as it is.
pub proof fn releasing_frees_ports(table: Table, dir: Seq<char>, key: (Seq<char>, Seq<char>))
    requires
        ports_unique(table),
        table.contains_key(key),
    ensures
        ports_unique(released(table, dir)),
        key.0 == dir ==> !port_taken(released(table, dir), table[key].port),
        key.0 != dir ==> released(table, dir).contains_key(key) && released(table, dir)[key]
            == table[key],
{
    let after = released(table, dir);
    assert forall|a: (Seq<char>, Seq<char>), b: (Seq<char>, Seq<char>)| #[trigger]
        after.contains_key(a) && #[trigger] after.contains_key(b) && a != b implies after[a].port
        != after[b].port by {
        assert(table.contains_key(a) && table.contains_key(b));
    }
    if key.0 == dir && port_taken(after, table[key].port) {
        let k = choose|k: (Seq<char>, Seq<char>)| #[trigger]
            after.contains_key(k) && after[k].port == table[key].port;
        assert(table.contains_key(k));
    }
}

/// What each action does to the table, and what is answered truly to it: a
/// lookup gives what the rows hold and changes none of them, a probe gives
/// what the host has bound, and a write changes the one row that it names.
pub proof fn actions_do_what_they_name(
    table: Table,
    bound: Set<u16>,
    dir: Seq<char>,
    service: Seq<char>,
    port: u16,
    scheme: Option<Seq<char>>,
)
    ensures
        ({
            let (t, reply) = performed(table, bound, dir, ActionView::FindAllocation { service });
            t == table && if table.contains_key((dir, service)) {
                reply == Reply::Allocation { port: Some(table[(dir, service)].port) }
            } else {
                reply == Reply::Allocation { port: None }
            }
        }),
        ({
            let (t, reply) = performed(table, bound, dir, ActionView::FindPort { port });
            t == table && reply == Reply::PortTaken {
                taken: exists|k: (Seq<char>, Seq<char>)| #[trigger]
                    table.contains_key(k) && table[k].port == port,
            }
        }),
        performed(table, bound, dir, ActionView::ProbePort { port }) == (
            table,
            Reply::PortBound { bound: bound.contains(port) },
        ),
        performed(table, bound, dir, ActionView::AddAllocation { service, port, scheme }) == (
            table.insert((dir, service), Row { port, scheme }),
            Reply::Added,
        ),
        table.contains_key((dir, service)) ==> performed(
            table,
            bound,
            dir,
            ActionView::SetScheme { service, scheme },
        ) == (
            table.insert((dir, service), Row { port: table[(dir, service)].port, scheme }),
            Reply::SchemeSet,
        ),
{
}

/// A run goes on from each answer to its action until it asks for nothing.
pub proof fn run_goes_from_answer_to_answer(
    run: RunView,
    table: Table,
    bound: Set<u16>,
    dir: Seq<char>,
)
    ensures
        run_to_end(run, table, bound, dir) == (match allocate::pending(run) {
            ActionView::Finished => (run, table),
            ActionView::PortsExhausted => (run, table),
            action => {
                let (next, reply) = performed(table, bound, dir, action);
                run_to_end(allocate::after_reply(run, reply), next, bound, dir)
            },
        }),
{
}

/// A run without requests is finished, with no port and the table as it is.
pub proof fn nothing_asked_for_changes_nothing(table: Table, bound: Set<u16>, dir: Seq<char>)
    ensures
        ({
            let end = run_to_end(allocate::start(Seq::empty()), table, bound, dir);
            &&& allocate::pending(end.0) is Finished
            &&& end.1 == table
            &&& end.0.assignments == Map::<Seq<char>, u16>::empty()
        }),
{
}

/// What one more request makes of a run. After a run that ran out of ports it
/// changes nothing. A service with a row keeps its port, and the row takes the
/// scheme. Another service gets a port from its default on that no row has and
/// that is not bound, the first one of that kind, and its row is added; only
/// where there is no such port up to the last one does the run end without.
pub proof fn one_more_request(
    requests: Seq<RequestView>,
    r: RequestView,
    table: Table,
    bound: Set<u16>,
    dir: Seq<char>,
)
    ensures
        ({
            let before = run_to_end(allocate::start(requests), table, bound, dir);
            let after = run_to_end(allocate::start(requests.push(r)), table, bound, dir);
            let rows = before.1;
            let key = (dir, r.name);
            let port = after.1[key].port;
            &&& allocate::pending(before.0) is Finished || allocate::pending(
                before.0,
            ) is PortsExhausted
            &&& allocate::pending(after.0) is Finished || allocate::pending(
                after.0,
            ) is PortsExhausted
            &&& allocate::pending(before.0) is PortsExhausted ==> {
                &&& allocate::pending(after.0) is PortsExhausted
                &&& after.1 == rows
                &&& after.0.assignments == before.0.assignments
            }
            &&& allocate::pending(before.0) is Finished && rows.contains_key(key) ==> {
                &&& allocate::pending(after.0) is Finished
                &&& after.1 == rows.insert(
                    key,
                    Row { port: rows[key].port, scheme: r.scheme },
                )
                &&& after.0.assignments == before.0.assignments.insert(r.name, rows[key].port)
            }
            &&& allocate::pending(before.0) is Finished && !rows.contains_key(key)
                && allocate::pending(after.0) is Finished ==> {
                &&& after.1 == rows.insert(key, Row { port, scheme: r.scheme })
                &&& after.0.assignments == before.0.assignments.insert(r.name, port)
                &&& r.default_port <= port
                &&& !bound.contains(port)
                &&& forall|k: (Seq<char>, Seq<char>)| #[trigger]
                    rows.contains_key(k) ==> rows[k].port != port
                &&& forall|q: u16|
                    r.default_port <= q < port ==> #[trigger] bound.contains(q) || exists|
                        k: (Seq<char>, Seq<char>),
                    | #[trigger]
                        rows.contains_key(k) && rows[k].port == q
            }
            &&& allocate::pending(before.0) is Finished && allocate::pending(
                after.0,
            ) is PortsExhausted ==> {
                &&& !rows.contains_key(key)
                &&& after.1 == rows
                &&& after.0.assignments == before.0.assignments
                &&& forall|q: u16|
                    r.default_port <= q ==> #[trigger] bound.contains(q) || exists|
                        k: (Seq<char>, Seq<char>),
                    | #[trigger]
                        rows.contains_key(k) && rows[k].port == q
            }
        }),
{
    let all = requests.push(r);
    let n = requests.len() as int;
    run_allocates(requests, table, bound, dir);
    run_allocates(all, table, bound, dir);
    assert(all.take(n) =~= requests);
    allocating_splits(table, bound, dir, all, n);
    let front = allocated(table, bound, dir, requests);
    let rows = front.table;
    lowest_free_is_lowest(rows, bound, r.default_port);
    assert forall|q: u16| !port_free(rows, bound, q) implies #[trigger] bound.contains(q) || exists|
        k: (Seq<char>, Seq<char>),
    | #[trigger] rows.contains_key(k) && rows[k].port == q by {
        assert(bound.contains(q) || port_taken(rows, q));
    }
    assert(all[n] == r);
    if front.complete {
        if let Some(port) = port_for(rows, bound, dir, r) {
            let next = rows.insert((dir, r.name), Row { port, scheme: r.scheme });
            let ports = front.ports.insert(r.name, port);
            assert(allocated_from(next, bound, dir, all, n + 1, ports) == Outcome {
                table: next,
                ports,
                complete: true,
            });
            if !rows.contains_key((dir, r.name)) {
                assert(port_free(rows, bound, port));
                assert forall|q: u16| r.default_port <= q < port implies #[trigger] bound.contains(q)
                    || exists|k: (Seq<char>, Seq<char>)| #[trigger]
                    rows.contains_key(k) && rows[k].port == q by {
                    assert(!port_free(rows, bound, q));
                }
            }
        } else {
            assert forall|q: u16| r.default_port <= q implies #[trigger] bound.contains(q)
                || exists|k: (Seq<char>, Seq<char>)| #[trigger]
                rows.contains_key(k) && rows[k].port == q by {
                assert(!port_free(rows, bound, q));
            }
        }
    }
}

/// A run finishes, with a row for every requested service and the row's port
/// as its assignment, if at its turn each service has a row, or some port from
/// its default on is in no row and not bound.
pub proof fn run_finishes_while_ports_are_left(
    requests: Seq<RequestView>,
    table: Table,
    bound: Set<u16>,
    dir: Seq<char>,
)
    requires
        forall|i: int|
            0 <= i < requests.len() ==> {
                let rows = run_to_end(
                    allocate::start(#[trigger] requests.take(i)),
                    table,
                    bound,
                    dir,
                ).1;
                rows.contains_key((dir, requests[i].name)) || exists|q: u16|
                    requests[i].default_port <= q && !#[trigger] bound.contains(q) && forall|
                        k: (Seq<char>, Seq<char>),
                    | #[trigger]
                        rows.contains_key(k) ==> rows[k].port != q
            },
    ensures
        ({
            let end = run_to_end(allocate::start(requests), table, bound, dir);
            &&& allocate::pending(end.0) is Finished
            &&& forall|i: int|
                0 <= i < requests.len() ==> {
                    let name = (#[trigger] requests[i]).name;
                    &&& end.1.contains_key((dir, name))
                    &&& end.0.assignments.contains_key(name)
                    &&& end.0.assignments[name] == end.1[(dir, name)].port
                }
        }),
    decreases requests.len(),
{
    if requests.len() == 0 {
        nothing_asked_for_changes_nothing(table, bound, dir);
        assert(requests =~= Seq::empty());
    } else {
        let front = requests.drop_last();
        let r = requests.last();
        let n = front.len() as int;
        assert(requests =~= front.push(r));
        assert(requests.take(n) =~= front);
        assert forall|i: int| 0 <= i < front.len() implies {
            let rows = run_to_end(
                allocate::start(#[trigger] front.take(i)),
                table,
                bound,
                dir,
            ).1;
            rows.contains_key((dir, front[i].name)) || exists|q: u16|
                front[i].default_port <= q && !#[trigger] bound.contains(q) && forall|
                    k: (Seq<char>, Seq<char>),
                | #[trigger]
                    rows.contains_key(k) ==> rows[k].port != q
        } by {
            assert(requests.take(i) =~= front.take(i));
            assert(requests[i] == front[i]);
        }
        run_finishes_while_ports_are_left(front, table, bound, dir);
        one_more_request(front, r, table, bound, dir);
        let before = run_to_end(allocate::start(front), table, bound, dir);
        let end = run_to_end(allocate::start(requests), table, bound, dir);
        let rows = before.1;
        assert(rows == run_to_end(allocate::start(requests.take(n)), table, bound, dir).1);
        assert(requests[n] == r);
        assert forall|i: int| 0 <= i < requests.len() implies {
            let name = (#[trigger] requests[i]).name;
            &&& end.1.contains_key((dir, name))
            &&& end.0.assignments.contains_key(name)
            &&& end.0.assignments[name] == end.1[(dir, name)].port
        } by {
            if i < n {
                assert(front[i] == requests[i]);
            }
        }
    }
}

/// A run ends without a port only at a service that has no row, when each port
/// from its default on is in a row or bound; the services in front of it are
/// served as a run over them alone serves them.
pub proof fn exhausted_run_has_no_port_left(
    requests: Seq<RequestView>,
    table: Table,
    bound: Set<u16>,
    dir: Seq<char>,
)
    requires
        allocate::pending(
            run_to_end(allocate::start(requests), table, bound, dir).0,
        ) is PortsExhausted,
    ensures
        ({
            let rows = run_to_end(allocate::start(requests), table, bound, dir).1;
            exists|i: int|
                {
                    &&& 0 <= i < requests.len()
                    &&& !rows.contains_key((dir, (#[trigger] requests[i]).name))
                    &&& rows == run_to_end(
                        allocate::start(requests.take(i)),
                        table,
                        bound,
                        dir,
                    ).1
                    &&& forall|q: u16|
                        requests[i].default_port <= q ==> #[trigger] bound.contains(q) || exists|
                            k: (Seq<char>, Seq<char>),
                        | #[trigger]
                            rows.contains_key(k) && rows[k].port == q
                }
        }),
    decreases requests.len(),
{
    if requests.len() == 0 {
        nothing_asked_for_changes_nothing(table, bound, dir);
        assert(requests =~= Seq::empty());
    } else {
        let front = requests.drop_last();
        let r = requests.last();
        let n = front.len() as int;
        assert(requests =~= front.push(r));
        assert(requests.take(n) =~= front);
        one_more_request(front, r, table, bound, dir);
        let before = run_to_end(allocate::start(front), table, bound, dir);
        if allocate::pending(before.0) is PortsExhausted {
            exhausted_run_has_no_port_left(front, table, bound, dir);
            let rows = before.1;
            let i = choose|i: int|
                {
                    &&& 0 <= i < front.len()
                    &&& !rows.contains_key((dir, (#[trigger] front[i]).name))
                    &&& rows == run_to_end(
                        allocate::start(front.take(i)),
                        table,
                        bound,
                        dir,
                    ).1
                    &&& forall|q: u16|
                        front[i].default_port <= q ==> #[trigger] bound.contains(q) || exists|
                            k: (Seq<char>, Seq<char>),
                        | #[trigger]
                            rows.contains_key(k) && rows[k].port == q
                };
            assert(requests[i] == front[i]);
            assert(requests.take(i) =~= front.take(i));
        } else {
            assert(requests[n] == r);
        }
    }
}

/// A release removes exactly the rows of the working directory.
pub proof fn release_removes_the_rows_of_the_directory(
    table: Table,
    dir: Seq<char>,
    key: (Seq<char>, Seq<char>),
)
    ensures
        released(table, dir).contains_key(key) <==> table.contains_key(key) && key.0 != dir,
        released(table, dir).contains_key(key) ==> released(table, dir)[key] == table[key],
{
}

/// A true answer to what a run asks for is one that the run takes.
pub proof fn true_answers_are_taken(run: RunView, table: Table, bound: Set<u16>, dir: Seq<char>)
    ensures
        match allocate::pending(run) {
            ActionView::Finished => true,
            ActionView::PortsExhausted => true,
            action => allocate::answers(action, performed(table, bound, dir, action).1),
        },
{
}

} // verus!
