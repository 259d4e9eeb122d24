//! The machine a migration moves onto.
//!
//! `[orchestrator].migrate` names a declared machine, so a migration adds no
//! configuration of its own. The load already rejected a name that nothing
//! declares, so the only fault left is a configuration that names no
//! destination at all.
use vstd::prelude::*;
use vstd::string::*;

use crate::config::{Host, HostForm, LoadedConfig};
use crate::fault::Fault;

verus! {

/// The machine a migration moves onto, borrowed from the configuration.
#[derive(Debug)]
pub struct Destination<'a> {
    /// The entry that declared it.
    pub name: &'a str,
    /// How the machine is obtained and what it runs.
    pub form: &'a HostForm,
    /// Where the run's directory goes on that machine.
    pub root: &'a str,
    /// The `sima` binary that drives the run there.
    pub binary: &'a str,
}

/// What a configuration that names no destination is refused with.
pub open spec fn no_destination() -> Seq<char> {
    "this config names no migration destination; give [orchestrator] a migrate key naming the [host.*] entry to move the run onto"@
}

/// Whether `destination` is the declared machine `host` under `name`.
pub open spec fn is_destination(destination: Destination<'_>, name: Seq<char>, host: Host) -> bool {
    &&& destination.name@ == name
    &&& *destination.form == host.form
    &&& destination.root@ == host.root@
    &&& destination.binary@ == host.binary@
}

/// The destination the orchestrator of `config` names.
pub fn destination_for(config: &LoadedConfig) -> (r: Result<Destination<'_>, Fault>)
    requires
        config.wf(),
    ensures
        match config.orchestrator.migrate {
            Some(name) => r matches Ok(destination) && is_destination(
                destination,
                name@,
                config.hosts@[name@],
            ),
            None => r matches Err(fault) && fault@ == crate::fault::Complaint::Validation(
                no_destination(),
            ),
        },
{
    match &config.orchestrator.migrate {
        None => Err(
            Fault::Validation(
                "this config names no migration destination; give [orchestrator] a migrate key naming the [host.*] entry to move the run onto".to_owned(),
            ),
        ),
        Some(name) => {
            let at: usize = match config.hosts.find(name.as_str()) {
                Some(at) => at,
                None => {
                    proof {
                        assert(false);
                    }
                    0
                },
            };
            let host: &Host = &config.hosts.pairs[at].1;
            Ok(
                Destination {
                    name: name.as_str(),
                    form: &host.form,
                    root: host.root.as_str(),
                    binary: host.binary.as_str(),
                },
            )
        },
    }
}

} // verus!
