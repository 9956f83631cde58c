//! Whether a port is bound on the host.

use vstd::prelude::*;

verus! {

/// What came of binding an address.
#[derive(Clone, Copy, Debug, PartialEq, Eq, Structural)]
pub enum BindOutcome {
    /// The address could be bound.
    Bound,
    /// The address is in use.
    AddrInUse,
    /// The address could not be bound for another reason.
    OtherError,
}

/// What to do next about a port.
#[derive(Debug)]
pub enum ProbeStep {
    /// Bind the port on an address.
    Bind(&'static str),
    /// The port is bound, or it is not.
    Verdict(bool),
}

/// The addresses that a port is probed on: a wildcard bind can coexist with a
/// bind on a specific address, and the other way round, so each of them is
/// tried, for both families.
pub open spec fn probe_address(i: int) -> Seq<char> {
    if i == 0 {
        "0.0.0.0"@
    } else if i == 1 {
        "127.0.0.1"@
    } else if i == 2 {
        "::"@
    } else {
        "::1"@
    }
}

/// The next step, after the outcomes of the addresses in front: the port is
/// bound as soon as one of them is in use, and unbound when none of the four
/// is.
pub fn next_probe(outcomes: &Vec<BindOutcome>) -> (r: ProbeStep)
    ensures
        if outcomes@.contains(BindOutcome::AddrInUse) {
            r == ProbeStep::Verdict(true)
        } else if outcomes@.len() < 4 {
            r matches ProbeStep::Bind(address) && address@ == probe_address(
                outcomes@.len() as int,
            )
        } else {
            r == ProbeStep::Verdict(false)
        },
{
    for i in 0..outcomes.len()
        invariant
            forall|j: int| 0 <= j < i ==> outcomes@[j] != BindOutcome::AddrInUse,
    {
        if outcomes[i] == BindOutcome::AddrInUse {
            return ProbeStep::Verdict(true);
        }
    }
    match outcomes.len() {
        0 => ProbeStep::Bind("0.0.0.0"),
        1 => ProbeStep::Bind("127.0.0.1"),
        2 => ProbeStep::Bind("::"),
        3 => ProbeStep::Bind("::1"),
        _ => ProbeStep::Verdict(false),
    }
}

/// A port is probed on the wildcard and the loopback address of both families.
pub proof fn probed_addresses()
    ensures
        probe_address(0) == "0.0.0.0"@,
        probe_address(1) == "127.0.0.1"@,
        probe_address(2) == "::"@,
        probe_address(3) == "::1"@,
{
}

} // verus!
