//! What a configuration states about machines, as the pipeline reads it.
use vstd::prelude::*;

use crate::ordered::TextMap;

verus! {

/// The container a machine's workers run in.
#[derive(Debug, Clone, PartialEq, Eq)]
pub struct Container {
    /// The image the workers run from.
    pub image: String,
    /// The container runtime that runs it.
    pub runtime: String,
    /// What the runtime is given beyond the image.
    pub run_args: Vec<String>,
}

/// One device table of a worker layout: which devices, and how many workers.
#[derive(Debug, Clone, PartialEq, Eq)]
pub struct DeviceSelector {
    /// What the devices are selected by.
    pub select: String,
    /// The workers on them.
    pub workers: usize,
}

/// A worker layout.
#[derive(Debug, Clone, PartialEq, Eq)]
pub enum Pool {
    /// This many workers, bound to no device.
    Workers(usize),
    /// Workers on the devices each table selects.
    Devices(Vec<DeviceSelector>),
}

/// A machine of yours.
#[derive(Debug, Clone, PartialEq, Eq)]
pub struct OwnedHost {
    /// The ssh destination it is reached at.
    pub ssh: String,
    /// The container its workers run in.
    pub container: Container,
    /// Its worker layout.
    pub pool: Pool,
}

/// What a machine is rented as.
#[derive(Debug, Clone, PartialEq, Eq)]
pub struct Rented {
    /// The id of the control plane it is rented through.
    pub provider: String,
    /// The image it boots.
    pub image: String,
    /// The disk it is given.
    pub disk_gb: u64,
    /// How long it may take, from being asked for until it is usable.
    pub ready_timeout_ms: u64,
    /// How often it is looked at meanwhile.
    pub ready_poll_ms: u64,
}

/// How a machine is obtained, and what it runs.
#[derive(Debug, Clone, PartialEq, Eq)]
pub enum HostForm {
    /// It is yours and stands.
    Owned(OwnedHost),
    /// It is rented when it is needed.
    Rented(Rented),
}

/// A declared machine.
#[derive(Debug, Clone, PartialEq, Eq)]
pub struct Host {
    /// How it is obtained.
    pub form: HostForm,
    /// Where searches keep what they put on it.
    pub root: String,
    /// The `sima` binary on it.
    pub binary: String,
}

/// What a rental does about a member that could not be brought up.
#[derive(Debug, Clone, Copy, PartialEq, Eq, Structural)]
pub enum FillPolicy {
    /// The declared count or nothing.
    Strict,
    /// Whatever came up, so long as one machine did.
    BestEffort,
}

/// Which machines an invocation uses.
#[derive(Debug, Clone, Copy, PartialEq, Eq, Structural)]
pub enum Engagement {
    /// The orchestrator's own.
    Orchestrator,
    /// The orchestrator's and the fleet's.
    Fleet,
}

/// What a `[domain.*]` entry declares travels: the payload itself, and the
/// script that turns it into a program on the destination.
#[derive(Debug, Clone, PartialEq, Eq)]
pub struct PayloadSpec {
    /// One file or one directory. A single file is the program; a directory is
    /// whatever `install` makes of it.
    pub payload: String,
    /// The shell script the destination runs over the payload.
    pub install: Option<String>,
}

/// The `[domain.*]` entry a search's format is routed through.
#[derive(Debug, Clone, PartialEq, Eq)]
pub struct Routed {
    /// The program, as its path displays.
    pub binary: String,
    /// What travels, where the entry declares it.
    pub payload: Option<PayloadSpec>,
    /// The digest the program was installed from, where the entry states one.
    pub payload_digest: Option<String>,
    /// The names of the variables the program receives.
    pub env: Vec<String>,
    /// The SDK the entry declares.
    pub sdk: Option<String>,
}

/// The `[orchestrator]` section.
#[derive(Debug, Clone, PartialEq, Eq)]
pub struct Orchestrator {
    /// The declared machine a migration moves onto.
    pub migrate: Option<String>,
    /// The orchestrator's own worker layout.
    pub pool: Option<Pool>,
    /// The container its workers run in.
    pub container: Option<Container>,
}

/// A loaded configuration, as far as the pipeline decides by it.
#[derive(Debug, Clone, PartialEq, Eq)]
pub struct LoadedConfig {
    /// The format of the search.
    pub format: String,
    /// The entry that format is routed through; none for a format the build
    /// carries.
    pub routed: Option<Routed>,
    /// The `[orchestrator]` section.
    pub orchestrator: Orchestrator,
    /// The declared machines, by name.
    pub hosts: TextMap<Host>,
}

impl LoadedConfig {
    /// What a load guarantees: the machine `migrate` names is declared.
    pub open spec fn wf(self) -> bool {
        &&& self.hosts.wf()
        &&& self.orchestrator.migrate matches Some(name) ==> self.hosts@.dom().contains(name@)
    }
}

} // verus!
