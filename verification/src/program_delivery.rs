//! Getting a registered program onto the machines a run puts work on.
//!
//! ```text
//!   <root>/programs/
//!     store/                 where the objects land
//!     <payload>/             the program's tree, by its payload's digest
//!     sdk/<digest>/          the SDK's tree, by its digest
//! ```
//!
//! What a run sends is named by digests, so what crosses the wire is decided by
//! what the machine already holds.
use vstd::prelude::*;
use vstd::string::*;

use crate::config::{LoadedConfig, PayloadSpec};
use crate::fault::Fault;
use crate::payload::Manifest;
use crate::program_tree::{closure as payload_closure, join_path, ProgramTree};
use crate::reach::{add_strings, add_words};
use crate::text::{cat, cat3, quote, trim_trailing};

verus! {

// ---- What is sent ------------------------------------------------------------------------------

/// What a run sends a machine so that the machine can serve the run's format:
/// the program's payload, and the SDK the program imports where its entry
/// declares one.
#[derive(Debug, Clone, PartialEq, Eq)]
pub struct ProgramDelivery {
    /// The digest of the payload's manifest, which every worker of the run
    /// answers at its handshake.
    pub payload: String,
    /// The digest of the SDK's manifest.
    pub sdk: Option<String>,
}

/// The arguments that name `delivery` to the far half at `dir`.
pub open spec fn delivery_args(delivery: ProgramDelivery, dir: Seq<char>) -> Seq<Seq<char>> {
    let start = seq!["sync-serve"@, dir, "--payload"@, delivery.payload@];
    match delivery.sdk {
        Some(sdk) => start + seq!["--sdk"@, sdk@],
        None => start,
    }
}

/// The objects a machine needs before it can install what `delivery` names.
pub open spec fn delivery_closure(
    delivery: ProgramDelivery,
    manifest: Manifest,
    sdk_files: Seq<String>,
) -> Seq<String> {
    let program = crate::program_tree::closure_of(delivery.payload, manifest.entries@);
    match delivery.sdk {
        Some(sdk) => program + seq![sdk] + sdk_files,
        None => program,
    }
}

impl ProgramDelivery {
    /// The payload digest this delivery installs.
    pub fn payload(&self) -> (out: &str)
        ensures
            out@ == self.payload@,
    {
        self.payload.as_str()
    }

    /// The arguments that name this delivery to the far half. The directory is
    /// a path on the receiving machine and travels unresolved.
    pub fn args(&self, dir: &str) -> (args: Vec<String>)
        ensures
            crate::text::views(args@) == delivery_args(*self, dir@),
    {
        let mut args: Vec<String> = Vec::new();
        let start: [&str; 4] = ["sync-serve", dir, "--payload", self.payload.as_str()];
        add_words(&mut args, &start);
        match &self.sdk {
            Some(sdk) => {
                let more: [&str; 2] = ["--sdk", sdk.as_str()];
                add_words(&mut args, &more);
            },
            None => {},
        }
        proof {
            assert(crate::text::views(args@) =~= delivery_args(*self, dir@));
        }
        args
    }

    /// Every object a machine needs before it can install what this delivery
    /// names: the payload's whole closure, and the SDK's manifest with the
    /// `sdk_files` it names.
    pub fn closure(&self, manifest: &Manifest, sdk_files: &Vec<String>) -> (objects: Vec<String>)
        ensures
            objects@ == delivery_closure(*self, *manifest, sdk_files@),
    {
        let mut objects: Vec<String> = payload_closure(self.payload.clone(), manifest);
        match &self.sdk {
            None => {},
            Some(sdk) => {
                objects.push(sdk.clone());
                let ghost was = objects@;
                let mut i: usize = 0;
                proof {
                    assert(was + sdk_files@.take(0) =~= was);
                }
                while i < sdk_files.len()
                    invariant
                        i <= sdk_files@.len(),
                        objects@ == was + sdk_files@.take(i as int),
                    decreases sdk_files@.len() - i,
                {
                    objects.push(sdk_files[i].clone());
                    proof {
                        assert(was + sdk_files@.take(i + 1) =~= (was + sdk_files@.take(
                            i as int,
                        )).push(sdk_files@[i as int]));
                    }
                    i = i + 1;
                }
                proof {
                    assert(sdk_files@.take(sdk_files@.len() as int) =~= sdk_files@);
                    assert(objects@ =~= delivery_closure(*self, *manifest, sdk_files@));
                }
            },
        }
        objects
    }
}

/// Everything a machine installs from is in what is sent to it, and nothing more:
/// both manifests and every file they name.
pub proof fn a_delivery_sends_all_that_is_installed(
    delivery: ProgramDelivery,
    manifest: Manifest,
    sdk_files: Seq<String>,
)
    ensures
        delivery_closure(delivery, manifest, sdk_files).contains(delivery.payload),
        forall|i: int|
            0 <= i < manifest.entries@.len() ==> delivery_closure(
                delivery,
                manifest,
                sdk_files,
            ).contains((#[trigger] manifest.entries@[i]).object),
        delivery.sdk matches Some(sdk) ==> delivery_closure(
            delivery,
            manifest,
            sdk_files,
        ).contains(sdk),
        delivery.sdk is Some ==> forall|i: int|
            0 <= i < sdk_files.len() ==> delivery_closure(
                delivery,
                manifest,
                sdk_files,
            ).contains(#[trigger] sdk_files[i]),
        delivery_closure(delivery, manifest, sdk_files).len() == 1 + manifest.entries@.len() + (
        if delivery.sdk is Some {
            1 + sdk_files.len()
        } else {
            0
        }),
{
    let all = delivery_closure(delivery, manifest, sdk_files);
    let n = manifest.entries@.len() as int;
    assert(all[0] == delivery.payload);
    assert forall|i: int| 0 <= i < manifest.entries@.len() implies all.contains(
        (#[trigger] manifest.entries@[i]).object,
    ) by {
        assert(all[i + 1] == manifest.entries@[i].object);
    }
    if delivery.sdk is Some {
        assert(all[n + 1] == delivery.sdk->0);
        assert forall|i: int| 0 <= i < sdk_files.len() implies all.contains(
            #[trigger] sdk_files[i],
        ) by {
            assert(all[n + 2 + i] == sdk_files[i]);
        }
    }
}

// ---- What can be sent ----------------------------------------------------------------------------

/// What a program that cannot travel is refused with.
pub open spec fn cannot_travel_text(format: Seq<char>) -> Seq<char> {
    "the program declared for format "@ + crate::text::quoted(format)
        + " cannot reach another machine: its [domain] entry names no `payload`, so a machine of the fleet never receives it and can serve no worker for this run"@
}

/// Whether the run's format is a program that stays on the machine it is
/// installed on.
pub open spec fn stays_here(config: LoadedConfig) -> bool {
    config.routed matches Some(routed) && routed.payload is None && routed.payload_digest is None
}

/// Refuses a run whose format is a program that cannot travel.
pub fn sendable(config: &LoadedConfig) -> (r: Result<(), Fault>)
    ensures
        if stays_here(*config) {
            r matches Err(fault) && fault@ == crate::fault::Complaint::Validation(
                cannot_travel_text(config.format@),
            )
        } else {
            r is Ok
        },
{
    match &config.routed {
        None => Ok(()),
        Some(routed) => {
            if routed.payload.is_none() && routed.payload_digest.is_none() {
                let format: String = quote(config.format.as_str());
                Err(
                    Fault::Validation(
                        cat3(
                            "the program declared for format ",
                            format.as_str(),
                            " cannot reach another machine: its [domain] entry names no `payload`, so a machine of the fleet never receives it and can serve no worker for this run",
                        ),
                    ),
                )
            } else {
                Ok(())
            }
        },
    }
}

/// Where the payload a run sends comes from.
#[derive(Debug)]
pub enum PayloadSource<'a> {
    /// Files here, to be taken in.
    Files(&'a PayloadSpec),
    /// Objects the store already holds, under this digest.
    Held(&'a String),
}

/// What a run sends its machines.
#[derive(Debug)]
pub struct Sending<'a> {
    /// The payload.
    pub payload: PayloadSource<'a>,
    /// The SDK to be taken in.
    pub sdk: Option<&'a String>,
}

/// Decides what `config`'s run sends its machines: nothing for a format this
/// build carries, and otherwise the payload its entry declares, by its files
/// where the entry names them and by its digest where it only states that.
pub fn ingest_program(config: &LoadedConfig) -> (r: Result<Option<Sending<'_>>, Fault>)
    ensures
        match config.routed {
            None => r matches Ok(None),
            Some(routed) => if stays_here(*config) {
                r matches Err(fault) && fault@ == crate::fault::Complaint::Validation(
                    cannot_travel_text(config.format@),
                )
            } else {
                &&& r matches Ok(Some(sending))
                &&& match routed.payload {
                    Some(files) => sending.payload matches PayloadSource::Files(named) && *named
                        == files,
                    None => sending.payload matches PayloadSource::Held(digest)
                        && routed.payload_digest == Some(*digest),
                }
                &&& match routed.sdk {
                    Some(sdk) => sending.sdk matches Some(named) && *named == sdk,
                    None => sending.sdk is None,
                }
            },
        },
{
    match sendable(config) {
        Err(fault) => return Err(fault),
        Ok(_) => {},
    }
    match &config.routed {
        None => Ok(None),
        Some(routed) => {
            let payload: PayloadSource<'_> = match &routed.payload {
                Some(files) => PayloadSource::Files(files),
                None => match &routed.payload_digest {
                    Some(digest) => PayloadSource::Held(digest),
                    None => {
                        proof {
                            assert(stays_here(*config));
                        }
                        return Ok(None);
                    },
                },
            };
            let sdk: Option<&String> = match &routed.sdk {
                Some(sdk) => Some(sdk),
                None => None,
            };
            Ok(Some(Sending { payload, sdk }))
        },
    }
}

// ---- Machines of yours -----------------------------------------------------------------------------

/// Where a machine whose entry names `root` keeps the programs runs deliver to
/// it.
pub open spec fn programs_of(root: Seq<char>) -> Seq<char> {
    crate::text::without_trailing(root, '/') + "/programs"@
}

/// Where a machine whose entry names `root` keeps the programs runs deliver to
/// it. The path travels unresolved, so it is composed as text.
pub fn programs_dir(root: &str) -> (out: String)
    ensures
        out@ == programs_of(root@),
{
    let stem: String = trim_trailing(root, '/');
    cat(stem.as_str(), "/programs")
}

/// The far half of a delivery to a machine of yours, which runs in the image
/// the machine's workers run in.
#[derive(Debug, Clone, PartialEq, Eq)]
pub struct OwnedDelivery {
    /// The command the image runs.
    pub command: Vec<String>,
    /// The directory mounted at the same path on both sides.
    pub mount: String,
}

/// The far half of the delivery to a machine of yours whose entry names `root`.
pub fn deliver_to_owned(delivery: &ProgramDelivery, root: &str) -> (half: OwnedDelivery)
    ensures
        crate::text::views(half.command@) == seq!["sima"@] + delivery_args(
            *delivery,
            programs_of(root@),
        ),
        half.mount@ == programs_of(root@) + ":"@ + programs_of(root@),
{
    let programs: String = programs_dir(root);
    let mut command: Vec<String> = vec!["sima".to_owned()];
    proof {
        assert(crate::text::views(command@) =~= seq!["sima"@]);
    }
    let args: Vec<String> = delivery.args(programs.as_str());
    add_strings(&mut command, &args);
    OwnedDelivery { command, mount: cat3(programs.as_str(), ":", programs.as_str()) }
}

/// What a delivery that failed is reported with.
pub open spec fn undelivered_text(ssh: Seq<char>, why: Seq<char>) -> Seq<char> {
    "cannot deliver the program to "@ + crate::text::quoted(ssh) + ": "@ + why
}

/// The failure of a delivery to the machine of yours at `ssh`.
pub fn undelivered(ssh: &str, why: &str) -> (fault: Fault)
    ensures
        fault@ == crate::fault::Complaint::Transport(undelivered_text(ssh@, why@)),
{
    let name: String = quote(ssh);
    let mut out: String = cat3("cannot deliver the program to ", name.as_str(), ": ");
    out.append(why);
    Fault::Transport(out)
}

// ---- Receiving -----------------------------------------------------------------------------------

/// Where a delivery's objects land.
pub open spec fn store_of(dir: Seq<char>) -> Seq<char> {
    crate::program_tree::inside(dir, "store"@)
}

/// Where the objects of deliveries into `dir` land, shared by every run that
/// delivers there.
pub fn delivery_store(dir: &str) -> (out: String)
    ensures
        out@ == store_of(dir@),
{
    join_path(dir, "store")
}

/// The root of the tree the payload `digest` is installed into.
pub open spec fn program_root(dir: Seq<char>, digest: Seq<char>) -> Seq<char> {
    crate::program_tree::inside(dir, digest)
}

/// The tree the payload `digest` is installed into, under the delivery
/// directory `dir`.
pub fn program_tree(dir: &str, digest: &str) -> (tree: ProgramTree)
    ensures
        tree.root@ == program_root(dir@, digest@),
{
    ProgramTree::at(join_path(dir, digest))
}

/// The root of the tree the SDK `digest` is installed into.
pub open spec fn sdk_root(dir: Seq<char>, digest: Seq<char>) -> Seq<char> {
    crate::program_tree::inside(crate::program_tree::inside(dir, "sdk"@), digest)
}

/// The tree the SDK `digest` is installed into, under the delivery directory
/// `dir`.
pub fn sdk_tree(dir: &str, digest: &str) -> (out: String)
    ensures
        out@ == sdk_root(dir@, digest@),
{
    let sdks: String = join_path(dir, "sdk");
    join_path(sdks.as_str(), digest)
}

/// What a receiving machine advertises: the digests it was told of, so that a
/// repeated delivery comes down to nothing.
pub fn advertised(delivery: &ProgramDelivery) -> (named: Vec<String>)
    ensures
        named@ == seq![delivery.payload] + (match delivery.sdk {
            Some(sdk) => seq![sdk],
            None => Seq::empty(),
        }),
{
    let mut named: Vec<String> = vec![delivery.payload.clone()];
    match &delivery.sdk {
        Some(sdk) => named.push(sdk.clone()),
        None => {},
    }
    proof {
        assert(named@ =~= seq![delivery.payload] + (match delivery.sdk {
            Some(sdk) => seq![sdk],
            None => Seq::empty(),
        }));
    }
    named
}

/// Where receiving a delivery stands.
#[derive(Debug, Clone, Copy, PartialEq, Eq, Structural)]
pub enum Receiving {
    /// The shared store is being opened.
    Open { sdk: bool },
    /// The objects are coming in.
    Sync { sdk: bool },
    /// The program is being installed.
    InstallProgram { sdk: bool },
    /// The SDK is being installed.
    InstallSdk,
    /// It is over; `received` is whether all of it was done.
    Over { received: bool },
}

/// What receiving is told.
#[derive(Debug, Clone, Copy, PartialEq, Eq, Structural)]
pub enum Received {
    /// It was done.
    Done,
    /// It failed, and its failure is the answer.
    Failed,
}

impl Receiving {
    /// The state after `answer`.
    pub open spec fn next(self, answer: Received) -> Receiving {
        match (self, answer) {
            (Receiving::Over { received }, _) => Receiving::Over { received },
            (_, Received::Failed) => Receiving::Over { received: false },
            (Receiving::Open { sdk }, Received::Done) => Receiving::Sync { sdk },
            (Receiving::Sync { sdk }, Received::Done) => Receiving::InstallProgram { sdk },
            (Receiving::InstallProgram { sdk }, Received::Done) => if sdk {
                Receiving::InstallSdk
            } else {
                Receiving::Over { received: true }
            },
            (Receiving::InstallSdk, Received::Done) => Receiving::Over { received: true },
        }
    }

    /// The state after `answers`, of a delivery with an SDK or without.
    pub open spec fn after(sdk: bool, answers: Seq<Received>) -> Receiving
        decreases answers.len(),
    {
        if answers.len() == 0 {
            Receiving::Open { sdk }
        } else {
            Receiving::after(sdk, answers.drop_last()).next(answers.last())
        }
    }
}

/// The state of receiving a delivery that `answer` leads to. It begins at
/// [`Receiving::Open`].
pub fn receive_program(at: Receiving, answer: Received) -> (state: Receiving)
    ensures
        state == at.next(answer),
{
    match (at, answer) {
        (Receiving::Over { received }, _) => Receiving::Over { received },
        (_, Received::Failed) => Receiving::Over { received: false },
        (Receiving::Open { sdk }, Received::Done) => Receiving::Sync { sdk },
        (Receiving::Sync { sdk }, Received::Done) => Receiving::InstallProgram { sdk },
        (Receiving::InstallProgram { sdk }, Received::Done) => {
            if sdk {
                Receiving::InstallSdk
            } else {
                Receiving::Over { received: true }
            }
        },
        (Receiving::InstallSdk, Received::Done) => Receiving::Over { received: true },
    }
}

/// A delivery is received by exactly its steps, every one of them done: the
/// store, the objects, the program, and the SDK where there is one.
pub proof fn a_delivery_is_received_whole(sdk: bool, answers: Seq<Received>)
    ensures
        ({
            let need: nat = if sdk {
                4
            } else {
                3
            };
            Receiving::after(sdk, answers) == (Receiving::Over { received: true }) <==> (
            answers.len() >= need && forall|i: int|
                0 <= i < need ==> #[trigger] answers[i] == Received::Done)
        }),
{
    lemma_receiving(sdk, answers);
}

/// Whether the first `n` answers are all done.
pub open spec fn all_done(answers: Seq<Received>, n: int) -> bool {
    forall|i: int| 0 <= i < n ==> #[trigger] answers[i] == Received::Done
}

proof fn lemma_receiving(sdk: bool, answers: Seq<Received>)
    ensures
        ({
            let need: int = if sdk {
                4
            } else {
                3
            };
            let n = if answers.len() < need {
                answers.len() as int
            } else {
                need
            };
            let state = Receiving::after(sdk, answers);
            &&& all_done(answers, n) ==> state == (if n == need {
                Receiving::Over { received: true }
            } else if n == 0 {
                Receiving::Open { sdk }
            } else if n == 1 {
                Receiving::Sync { sdk }
            } else if n == 2 {
                Receiving::InstallProgram { sdk }
            } else {
                Receiving::InstallSdk
            })
            &&& !all_done(answers, n) ==> state == (Receiving::Over { received: false })
        }),
    decreases answers.len(),
{
    if answers.len() > 0 {
        let fewer = answers.drop_last();
        lemma_receiving(sdk, fewer);
        let need: int = if sdk {
            4
        } else {
            3
        };
        let n = if answers.len() < need {
            answers.len() as int
        } else {
            need
        };
        let m = if fewer.len() < need {
            fewer.len() as int
        } else {
            need
        };
        assert forall|i: int| 0 <= i < m implies fewer[i] == #[trigger] answers[i] by {}
        if all_done(answers, n) {
            assert forall|i: int| 0 <= i < m implies #[trigger] fewer[i] == Received::Done by {
                assert(answers[i] == Received::Done);
            }
            if m < n {
                assert(answers[answers.len() - 1] == Received::Done);
            }
        } else if all_done(fewer, m) {
            let i = choose|i: int| 0 <= i < n && #[trigger] answers[i] != Received::Done;
            if i < m {
                assert(fewer[i] == Received::Done);
            }
            assert(i == answers.len() - 1);
        }
    }
}

/// Receiving goes step by step: as long as every answer so far is that it was
/// done, the store, the objects, the program, and the SDK, where there is one,
/// are called for in that order, and then it is over; and one failure on the way
/// ends it with nothing received.
pub proof fn receiving_goes_step_by_step(sdk: bool, answers: Seq<Received>)
    ensures
        ({
            let state = Receiving::after(sdk, answers);
            let whole = forall|i: int|
                0 <= i < answers.len() ==> #[trigger] answers[i] == Received::Done;
            &&& whole && answers.len() == 0 ==> state == (Receiving::Open { sdk })
            &&& whole && answers.len() == 1 ==> state == (Receiving::Sync { sdk })
            &&& whole && answers.len() == 2 ==> state == (Receiving::InstallProgram { sdk })
            &&& whole && answers.len() == 3 && sdk ==> state == Receiving::InstallSdk
            &&& whole && answers.len() == 3 && !sdk ==> state == (Receiving::Over {
                received: true,
            })
            &&& (exists|i: int|
                0 <= i < 3 && i < answers.len() && #[trigger] answers[i] == Received::Failed)
                ==> state == (Receiving::Over { received: false })
            &&& sdk && answers.len() > 3 && answers[3] == Received::Failed ==> state == (
            Receiving::Over { received: false })
        }),
{
    lemma_receiving(sdk, answers);
}

// ---- Nothing lands on anything else ----------------------------------------------------------------

/// Neither the store, nor the place of the SDKs, nor a program's tree, nor an
/// SDK's stands where another of them does: digests have 64 characters, so no
/// reserved name is one.
pub proof fn the_two_trees_and_the_store_never_collide(
    dir: Seq<char>,
    program: Seq<char>,
    other: Seq<char>,
    sdk: Seq<char>,
)
    requires
        program.len() == 64,
        other.len() == 64,
        sdk.len() == 64,
    ensures
        program_root(dir, program) != store_of(dir),
        program_root(dir, program) != sdk_root(dir, sdk),
        sdk_root(dir, sdk) != store_of(dir),
        program != other ==> program_root(dir, program) != program_root(dir, other),
        program != sdk ==> sdk_root(dir, program) != sdk_root(dir, sdk),
{
    reveal_strlit("store");
    reveal_strlit("sdk");
    reveal_strlit("/");
    let base = if dir.len() == 0 || dir.last() == '/' {
        dir
    } else {
        dir + "/"@
    };
    let n = base.len() as int;
    assert forall|name: Seq<char>| #[trigger] crate::program_tree::inside(dir, name) == base
        + name by {}
    let sdks = crate::program_tree::inside(dir, "sdk"@);
    assert(sdks == base + "sdk"@);
    assert(sdks.last() == 'k');
    assert forall|name: Seq<char>| #[trigger] crate::program_tree::inside(sdks, name) == sdks
        + "/"@ + name by {}
    assert(store_of(dir).len() == n + 5);
    assert(program_root(dir, program).len() == n + 64);
    assert(sdk_root(dir, sdk).len() == n + 68);
    if program != other {
        if program_root(dir, program) == program_root(dir, other) {
            assert((base + program).skip(n) =~= program);
            assert((base + other).skip(n) =~= other);
        }
    }
    if program != sdk {
        let stem = sdks + "/"@;
        if sdk_root(dir, program) == sdk_root(dir, sdk) {
            assert((stem + program).skip(stem.len() as int) =~= program);
            assert((stem + sdk).skip(stem.len() as int) =~= sdk);
        }
    }
}

} // verus!
