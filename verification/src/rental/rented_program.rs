//! What a rented machine runs for a run, and everything that follows from it.
//!
//! A rented machine is asked four things between being acquired and serving its
//! first task: is it up, can it be given what the run needs, what devices can
//! the run's work go on there, and how is a worker started. All four answers
//! differ by whether the run's format is one the machine's image carries or a
//! program that has to reach it first.
use vstd::prelude::*;
use vstd::string::*;

use crate::program_delivery::{programs_dir, ProgramDelivery};
use crate::reach::{add_strings, SpawnMode, SshDestination};

verus! {

/// What a rented machine runs for one run.
#[derive(Debug)]
pub enum RentedProgram<'a> {
    /// The image answers for the run's format itself.
    Image,
    /// A program delivered to the machine before it serves anything.
    Delivered {
        /// What the run sends.
        delivery: &'a ProgramDelivery,
        /// The `sima` on that machine, which runs the delivery's far half.
        binary: &'a str,
        /// Where that machine keeps what runs deliver to it.
        root: &'a str,
    },
}

/// What a probe asks a machine's worker.
#[derive(Debug, PartialEq, Eq)]
pub enum DeviceProbe<'f> {
    /// Which devices open for a format.
    Format(&'f str),
    /// Which devices open at all.
    EveryBackend,
}

/// Whose answer the devices of a machine are.
#[derive(Debug, Clone, Copy, PartialEq, Eq, Structural)]
pub enum DeviceSource {
    /// The image's worker, which the readiness probe already asked.
    Probe,
    /// The delivered program, asked on its machine over ssh.
    ProgramOverSsh,
    /// The delivered program, asked on this machine.
    ProgramHere,
}

/// What a spawn runs.
#[derive(Debug, Clone, Copy, PartialEq, Eq, Structural)]
pub enum SpawnCommand {
    /// The worker the machine's image carries.
    ImageWorker,
    /// The delivered program, through a shell on its machine.
    ProgramOverSsh,
    /// The delivered program, spawned directly on this machine.
    ProgramHere,
}

/// The environment a spawn is given.
#[derive(Debug, Clone, Copy, PartialEq, Eq, Structural)]
pub enum SpawnEnvironment {
    /// The ambient one, which an ssh client needs to reach anything.
    Inherited,
    /// The explicit one every configured program gets on this machine.
    Explicit,
}

/// How one of a machine's workers is spawned.
#[derive(Debug, Clone, PartialEq, Eq)]
pub struct SpawnPlan {
    /// What runs.
    pub command: SpawnCommand,
    /// Under which environment.
    pub environment: SpawnEnvironment,
    /// The program digest every worker must answer.
    pub expected: Option<String>,
}

/// Whether `mode` reaches a machine over ssh.
pub open spec fn over_ssh(mode: SpawnMode) -> bool {
    mode is Ssh
}

/// Where the devices of a machine come from.
pub open spec fn device_source(program: RentedProgram<'_>, mode: SpawnMode) -> DeviceSource {
    match program {
        RentedProgram::Image => DeviceSource::Probe,
        RentedProgram::Delivered { .. } => if over_ssh(mode) {
            DeviceSource::ProgramOverSsh
        } else {
            DeviceSource::ProgramHere
        },
    }
}

/// Whether `plan` is how a worker of `program` is spawned under `mode`.
pub open spec fn is_spawn_plan(
    plan: SpawnPlan,
    program: RentedProgram<'_>,
    mode: SpawnMode,
) -> bool {
    match program {
        RentedProgram::Image => {
            &&& plan.command == SpawnCommand::ImageWorker
            &&& plan.environment == SpawnEnvironment::Inherited
            &&& plan.expected is None
        },
        RentedProgram::Delivered { delivery, .. } => {
            &&& plan.expected matches Some(digest)
            &&& digest == delivery.payload
            &&& plan.command == (if over_ssh(mode) {
                SpawnCommand::ProgramOverSsh
            } else {
                SpawnCommand::ProgramHere
            })
            &&& plan.environment == (if over_ssh(mode) {
                SpawnEnvironment::Inherited
            } else {
                SpawnEnvironment::Explicit
            })
        },
    }
}

impl RentedProgram<'_> {
    /// What the readiness probe asks the machine. A format that is a program
    /// cannot be resolved by the image's worker, so the probe then asks about
    /// no format and its answer states only that the machine is up.
    pub fn readiness<'f>(&self, format: &'f str) -> (probe: DeviceProbe<'f>)
        ensures
            match *self {
                RentedProgram::Image => probe matches DeviceProbe::Format(asked) && asked@
                    == format@,
                RentedProgram::Delivered { .. } => probe is EveryBackend,
            },
    {
        match self {
            RentedProgram::Image => DeviceProbe::Format(format),
            RentedProgram::Delivered { .. } => DeviceProbe::EveryBackend,
        }
    }

    /// The command of the far half that puts what the run needs on the machine,
    /// or nothing for a format the image carries. Over ssh the command lands
    /// inside the machine's own container; without a hop the machine is this
    /// one.
    pub fn install(&self, mode: &SpawnMode, target: &SshDestination) -> (r: Option<Vec<String>>)
        ensures
            match *self {
                RentedProgram::Image => r is None,
                RentedProgram::Delivered { delivery, binary, root } => {
                    &&& r matches Some(argv)
                    &&& crate::text::views(argv@) == (if over_ssh(*mode) {
                        crate::reach::prefix_of(*target)
                    } else {
                        Seq::empty()
                    }).push(binary@) + crate::program_delivery::delivery_args(
                        *delivery,
                        crate::program_delivery::programs_of(root@),
                    )
                },
            },
    {
        match self {
            RentedProgram::Image => None,
            RentedProgram::Delivered { delivery, binary, root } => {
                let mut argv: Vec<String> = match mode {
                    SpawnMode::Ssh => target.prefix(),
                    SpawnMode::Local(_) => Vec::new(),
                };
                let ghost was = argv@;
                proof {
                    if !over_ssh(*mode) {
                        assert(crate::text::views(was) =~= Seq::<Seq<char>>::empty());
                    }
                }
                let name: &str = binary;
                argv.push(name.to_owned());
                proof {
                    assert(crate::text::views(argv@) =~= crate::text::views(was).push(binary@));
                }
                let programs: String = programs_dir(root);
                let args: Vec<String> = delivery.args(programs.as_str());
                add_strings(&mut argv, &args);
                Some(argv)
            },
        }
    }

    /// Whose answer the devices of the machine are. The image's worker already
    /// answered for a format it carries; a delivered program is asked itself,
    /// since only it knows which devices its own backend opens.
    pub fn devices(&self, mode: &SpawnMode) -> (source: DeviceSource)
        ensures
            source == device_source(*self, *mode),
    {
        match (self, mode) {
            (RentedProgram::Image, _) => DeviceSource::Probe,
            (RentedProgram::Delivered { .. }, SpawnMode::Ssh) => DeviceSource::ProgramOverSsh,
            (RentedProgram::Delivered { .. }, SpawnMode::Local(_)) => DeviceSource::ProgramHere,
        }
    }

    /// How one of the machine's workers is spawned.
    pub fn spawn(&self, mode: &SpawnMode) -> (plan: SpawnPlan)
        ensures
            is_spawn_plan(plan, *self, *mode),
    {
        match self {
            RentedProgram::Image => SpawnPlan {
                command: SpawnCommand::ImageWorker,
                environment: SpawnEnvironment::Inherited,
                expected: None,
            },
            RentedProgram::Delivered { delivery, .. } => {
                let expected: Option<String> = Some(delivery.payload.clone());
                match mode {
                    SpawnMode::Ssh => SpawnPlan {
                        command: SpawnCommand::ProgramOverSsh,
                        environment: SpawnEnvironment::Inherited,
                        expected,
                    },
                    SpawnMode::Local(_) => SpawnPlan {
                        command: SpawnCommand::ProgramHere,
                        environment: SpawnEnvironment::Explicit,
                        expected,
                    },
                }
            },
        }
    }
}

/// A worker is expected to answer a program's digest exactly where a program
/// was put on its machine, and then the digest of what was put there.
pub proof fn a_worker_answers_what_was_delivered(
    program: RentedProgram<'_>,
    mode: SpawnMode,
    plan: SpawnPlan,
)
    requires
        is_spawn_plan(plan, program, mode),
    ensures
        plan.expected == (match program {
            RentedProgram::Image => None,
            RentedProgram::Delivered { delivery, .. } => Some(delivery.payload),
        }),
        plan.command == SpawnCommand::ImageWorker <==> program is Image,
        device_source(program, mode) == DeviceSource::Probe <==> program is Image,
{
}

/// A delivered program is spawned and asked where it was delivered: over ssh,
/// under the ambient environment, exactly where its machine is reached that way,
/// and here, under its own environment, exactly where it is not.
pub proof fn a_delivered_program_runs_where_it_was_delivered(
    program: RentedProgram<'_>,
    mode: SpawnMode,
    plan: SpawnPlan,
)
    requires
        is_spawn_plan(plan, program, mode),
    ensures
        plan.command == SpawnCommand::ProgramOverSsh <==> program is Delivered && mode is Ssh,
        plan.command == SpawnCommand::ProgramHere <==> program is Delivered && mode is Local,
        plan.environment == SpawnEnvironment::Explicit <==> program is Delivered && mode is Local,
        device_source(program, mode) == DeviceSource::ProgramOverSsh <==> program is Delivered
            && mode is Ssh,
        device_source(program, mode) == DeviceSource::ProgramHere <==> program is Delivered
            && mode is Local,
{
}

} // verus!
