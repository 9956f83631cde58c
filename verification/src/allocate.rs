//! Giving ports to the services of a working directory, one decision at a
//! time: each step names what to ask of the allocation table or the host, and
//! takes the answer.

use vstd::prelude::*;

use crate::request;
use crate::request::{RequestView, ServiceRequest};
use crate::strmap::StrMap;
use crate::text;
use crate::text::copy_opt;

verus! {

/// What to do next for the working directory.
#[derive(Debug)]
pub enum Action {
    /// Look up the port that the table holds for the service.
    FindAllocation { service: String },
    /// Set the scheme of the service's row.
    SetScheme { service: String, scheme: Option<String> },
    /// Look up whether any row of the table has the port.
    FindPort { port: u16 },
    /// Find out whether the port is bound on the host.
    ProbePort { port: u16 },
    /// Add a row for the service.
    AddAllocation { service: String, port: u16, scheme: Option<String> },
    /// Nothing: every service has its port.
    Finished,
    /// Nothing: no port is left for a service.
    PortsExhausted,
}

/// An action, with texts for its strings.
pub enum ActionView {
    FindAllocation { service: Seq<char> },
    SetScheme { service: Seq<char>, scheme: Option<Seq<char>> },
    FindPort { port: u16 },
    ProbePort { port: u16 },
    AddAllocation { service: Seq<char>, port: u16, scheme: Option<Seq<char>> },
    Finished,
    PortsExhausted,
}

impl View for Action {
    type V = ActionView;

    open spec fn view(&self) -> ActionView {
        match *self {
            Action::FindAllocation { service } => ActionView::FindAllocation { service: service@ },
            Action::SetScheme { service, scheme } => ActionView::SetScheme {
                service: service@,
                scheme: text::opt_text(scheme),
            },
            Action::FindPort { port } => ActionView::FindPort { port },
            Action::ProbePort { port } => ActionView::ProbePort { port },
            Action::AddAllocation { service, port, scheme } => ActionView::AddAllocation {
                service: service@,
                port,
                scheme: text::opt_text(scheme),
            },
            Action::Finished => ActionView::Finished,
            Action::PortsExhausted => ActionView::PortsExhausted,
        }
    }
}

/// The answer to an action.
#[derive(Clone, Copy, Debug, PartialEq, Eq, Structural)]
pub enum Reply {
    /// The port that the table holds, if it holds one.
    Allocation { port: Option<u16> },
    /// The scheme was set.
    SchemeSet,
    /// Whether a row has the port.
    PortTaken { taken: bool },
    /// Whether the port is bound.
    PortBound { bound: bool },
    /// The row was added.
    Added,
}

/// How far the service in hand has come.
#[derive(Clone, Copy, Debug, PartialEq, Eq, Structural)]
pub enum Stage {
    /// Its allocation is to be looked up.
    Lookup,
    /// It keeps the port that it has.
    Keep { port: u16 },
    /// A port that it might get is to be looked up.
    CheckTable { port: u16 },
    /// A port that no row has is to be probed.
    CheckHost { port: u16 },
    /// It gets the port.
    Add { port: u16 },
    /// No port is left for it.
    Exhausted,
}

/// A run over the requests: those in front are settled.
pub struct RunView {
    pub requests: Seq<RequestView>,
    pub done: int,
    pub stage: Stage,
    pub assignments: Map<Seq<char>, u16>,
}

/// A run at its start.
pub open spec fn start(requests: Seq<RequestView>) -> RunView {
    RunView { requests, done: 0, stage: Stage::Lookup, assignments: Map::empty() }
}

/// What the run asks for.
pub open spec fn pending(run: RunView) -> ActionView {
    if run.stage is Exhausted {
        ActionView::PortsExhausted
    } else if run.done >= run.requests.len() {
        ActionView::Finished
    } else {
        let r = run.requests[run.done];
        match run.stage {
            Stage::Lookup => ActionView::FindAllocation { service: r.name },
            Stage::Keep { port } => ActionView::SetScheme { service: r.name, scheme: r.scheme },
            Stage::CheckTable { port } => ActionView::FindPort { port },
            Stage::CheckHost { port } => ActionView::ProbePort { port },
            Stage::Add { port } => ActionView::AddAllocation {
                service: r.name,
                port,
                scheme: r.scheme,
            },
            Stage::Exhausted => ActionView::PortsExhausted,
        }
    }
}

/// Whether `reply` is an answer to `action`.
pub open spec fn answers(action: ActionView, reply: Reply) -> bool {
    match action {
        ActionView::FindAllocation { service } => reply is Allocation,
        ActionView::SetScheme { service, scheme } => reply is SchemeSet,
        ActionView::FindPort { port } => reply is PortTaken,
        ActionView::ProbePort { port } => reply is PortBound,
        ActionView::AddAllocation { service, port, scheme } => reply is Added,
        ActionView::Finished => false,
        ActionView::PortsExhausted => false,
    }
}

/// The run with `port` settled for the service in hand.
pub open spec fn settled(run: RunView, port: u16) -> RunView {
    RunView {
        requests: run.requests,
        done: run.done + 1,
        stage: Stage::Lookup,
        assignments: run.assignments.insert(run.requests[run.done].name, port),
    }
}

/// The stage behind a port that cannot be had.
pub open spec fn beyond(port: u16) -> Stage {
    if port == u16::MAX {
        Stage::Exhausted
    } else {
        Stage::CheckTable { port: (port + 1) as u16 }
    }
}

/// The run after an answer to what it asked for.
pub open spec fn after_reply(run: RunView, reply: Reply) -> RunView {
    match (run.stage, reply) {
        (Stage::Lookup, Reply::Allocation { port: Some(port) }) => RunView {
            stage: Stage::Keep { port },
            ..run
        },
        (Stage::Lookup, Reply::Allocation { port: None }) => RunView {
            stage: Stage::CheckTable { port: run.requests[run.done].default_port },
            ..run
        },
        (Stage::Keep { port }, Reply::SchemeSet) => settled(run, port),
        (Stage::CheckTable { port }, Reply::PortTaken { taken }) => RunView {
            stage: if taken {
                beyond(port)
            } else {
                Stage::CheckHost { port }
            },
            ..run
        },
        (Stage::CheckHost { port }, Reply::PortBound { bound }) => RunView {
            stage: if bound {
                beyond(port)
            } else {
                Stage::Add { port }
            },
            ..run
        },
        (Stage::Add { port }, Reply::Added) => settled(run, port),
        _ => run,
    }
}

/// How many steps the service in hand can still take, at most.
pub open spec fn stage_weight(stage: Stage) -> nat {
    match stage {
        Stage::Lookup => 131_075,
        Stage::CheckTable { port } => (131_074 - 2 * port) as nat,
        Stage::CheckHost { port } => (131_073 - 2 * port) as nat,
        Stage::Keep { port } => 1,
        Stage::Add { port } => 1,
        Stage::Exhausted => 0,
    }
}

/// Every answer brings the run nearer to its end, whatever the answer is: it
/// settles a service, or shortens what is left for the one in hand.
pub proof fn every_answer_makes_progress(run: RunView, reply: Reply)
    requires
        answers(pending(run), reply),
    ensures
        ({
            let next = after_reply(run, reply);
            ||| next.done == run.done + 1 && next.done <= next.requests.len()
            ||| next.done == run.done && stage_weight(next.stage) < stage_weight(run.stage)
        }),
        after_reply(run, reply).requests == run.requests,
{
}

/// Services that are settled stay settled: an answer changes the assignment
/// of no other service than the one in hand.
pub proof fn other_assignments_stay(run: RunView, reply: Reply, service: Seq<char>)
    requires
        answers(pending(run), reply),
        run.assignments.contains_key(service),
        service != run.requests[run.done].name,
    ensures
        after_reply(run, reply).assignments.contains_key(service),
        after_reply(run, reply).assignments[service] == run.assignments[service],
{
}

/// Every service in front has a port.
pub open spec fn settled_services_have_ports(run: RunView) -> bool {
    forall|i: int|
        0 <= i < run.done && i < run.requests.len() ==> run.assignments.contains_key(
            #[trigger] run.requests[i].name,
        )
}

/// Every service in front has a port at the start, and after every answer.
pub proof fn settled_services_keep_ports(run: RunView, reply: Reply)
    ensures
        settled_services_have_ports(start(run.requests)),
        settled_services_have_ports(run) && answers(pending(run), reply)
            ==> settled_services_have_ports(after_reply(run, reply)),
{
}

/// At the end of a run without a failure, every service has a port.
pub proof fn finished_run_has_all_ports(run: RunView, i: int)
    requires
        settled_services_have_ports(run),
        pending(run) is Finished,
        0 <= i < run.requests.len(),
    ensures
        run.assignments.contains_key(run.requests[i].name),
{
}

/// A port is added only for a service that has none, after the table and the
/// host have both been asked about it: the run asks to add a port only on the
/// answer that the host has it unbound, and asks the host only on the answer
/// that no row has it.
pub proof fn port_is_checked_before_it_is_added(run: RunView, reply: Reply, port: u16)
    requires
        answers(pending(run), reply),
    ensures
        after_reply(run, reply).stage == (Stage::Add { port }) ==> run.stage == (
        Stage::CheckHost { port }) && reply == (Reply::PortBound { bound: false }),
        after_reply(run, reply).stage == (Stage::CheckHost { port }) ==> run.stage == (
        Stage::CheckTable { port }) && reply == (Reply::PortTaken { taken: false }),
{
}

/// A run over the requests of a working directory.
#[derive(Debug)]
pub struct Allocator {
    requests: Vec<ServiceRequest>,
    done: usize,
    stage: Stage,
    assignments: StrMap<u16>,
}

impl View for Allocator {
    type V = RunView;

    closed spec fn view(&self) -> RunView {
        RunView {
            requests: request::request_views(self.requests@),
            done: self.done as int,
            stage: self.stage,
            assignments: self.assignments@,
        }
    }
}

impl Allocator {
    /// Starts a run.
    pub fn new(requests: Vec<ServiceRequest>) -> (r: Self)
        ensures
            r@ == start(request::request_views(requests@)),
            settled_services_have_ports(r@),
    {
        Allocator { requests, done: 0, stage: Stage::Lookup, assignments: StrMap::new() }
    }

    /// What is to be done next.
    pub fn action(&self) -> (r: Action)
        ensures
            r@ == pending(self@),
    {
        if self.stage == Stage::Exhausted {
            return Action::PortsExhausted;
        }
        if self.done >= self.requests.len() {
            return Action::Finished;
        }
        let r = &self.requests[self.done];
        assert(self@.requests[self.done as int] == r@);
        match self.stage {
            Stage::Lookup => Action::FindAllocation { service: r.name.as_str().to_owned() },
            Stage::Keep { port: _ } => Action::SetScheme {
                service: r.name.as_str().to_owned(),
                scheme: copy_opt(&r.scheme),
            },
            Stage::CheckTable { port } => Action::FindPort { port },
            Stage::CheckHost { port } => Action::ProbePort { port },
            Stage::Add { port } => Action::AddAllocation {
                service: r.name.as_str().to_owned(),
                port,
                scheme: copy_opt(&r.scheme),
            },
            Stage::Exhausted => Action::PortsExhausted,
        }
    }

    /// Takes the answer to the action. An answer to another action is not
    /// taken, and changes nothing.
    pub fn advance(&mut self, reply: Reply) -> (taken: bool)
        ensures
            taken == answers(pending(old(self)@), reply),
            final(self)@ == (if taken {
                after_reply(old(self)@, reply)
            } else {
                old(self)@
            }),
            settled_services_have_ports(old(self)@) ==> settled_services_have_ports(final(self)@),
    {
        if self.stage == Stage::Exhausted || self.done >= self.requests.len() {
            return false;
        }
        assert(self@.requests[self.done as int] == self.requests@[self.done as int]@);
        match (self.stage, reply) {
            (Stage::Lookup, Reply::Allocation { port: Some(port) }) => {
                self.stage = Stage::Keep { port };
            },
            (Stage::Lookup, Reply::Allocation { port: None }) => {
                self.stage = Stage::CheckTable { port: self.requests[self.done].default_port };
            },
            (Stage::Keep { port }, Reply::SchemeSet) => {
                self.settle(port);
            },
            (Stage::CheckTable { port }, Reply::PortTaken { taken }) => {
                self.stage = if taken {
                    next_stage(port)
                } else {
                    Stage::CheckHost { port }
                };
            },
            (Stage::CheckHost { port }, Reply::PortBound { bound }) => {
                self.stage = if bound {
                    next_stage(port)
                } else {
                    Stage::Add { port }
                };
            },
            (Stage::Add { port }, Reply::Added) => {
                self.settle(port);
            },
            _ => {
                return false;
            },
        }
        true
    }

    fn settle(&mut self, port: u16)
        requires
            0 <= old(self)@.done < old(self)@.requests.len(),
        ensures
            final(self)@ == settled(old(self)@, port),
    {
        assert(self@.requests[self.done as int] == self.requests@[self.done as int]@);
        assert(self.done < self.requests.len());
        let name = self.requests[self.done].name.as_str().to_owned();
        self.assignments.insert(name, port);
        self.done = self.done + 1;
        self.stage = Stage::Lookup;
    }

    /// The requests of the run.
    pub fn requests(&self) -> (r: &Vec<ServiceRequest>)
        ensures
            request::request_views(r@) == self@.requests,
    {
        &self.requests
    }

    /// The ports of the services that are settled.
    pub fn assignments(&self) -> (r: &StrMap<u16>)
        ensures
            r@ == self@.assignments,
    {
        &self.assignments
    }
}

/// The stage behind a port that cannot be had.
fn next_stage(port: u16) -> (r: Stage)
    ensures
        r == beyond(port),
{
    match port.checked_add(1) {
        Some(next) => Stage::CheckTable { port: next },
        None => Stage::Exhausted,
    }
}

/// An action is seen as it is, with its strings as texts.
pub proof fn actions_are_seen_as_they_are(a: Action)
    ensures
        match a {
            Action::FindAllocation { service } => a@ == (ActionView::FindAllocation {
                service: service@,
            }),
            Action::SetScheme { service, scheme } => a@ == (ActionView::SetScheme {
                service: service@,
                scheme: text::opt_text(scheme),
            }),
            Action::FindPort { port } => a@ == (ActionView::FindPort { port }),
            Action::ProbePort { port } => a@ == (ActionView::ProbePort { port }),
            Action::AddAllocation { service, port, scheme } => a@ == (ActionView::AddAllocation {
                service: service@,
                port,
                scheme: text::opt_text(scheme),
            }),
            Action::Finished => a@ is Finished,
            Action::PortsExhausted => a@ is PortsExhausted,
        },
{
}

/// A reply is an answer only to the kind of action that it replies to, and
/// none is to a run that asks for nothing.
pub proof fn replies_answer_their_own_actions(action: ActionView, reply: Reply)
    ensures
        answers(action, reply) <==> {
            ||| action is FindAllocation && reply is Allocation
            ||| action is SetScheme && reply is SchemeSet
            ||| action is FindPort && reply is PortTaken
            ||| action is ProbePort && reply is PortBound
            ||| action is AddAllocation && reply is Added
        },
{
}

} // verus!
