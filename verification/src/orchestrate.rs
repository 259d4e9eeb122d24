//! One loaded configuration driven to its outcome.
//!
//! Everything that can be refused is refused before the store is touched: a
//! search that can never execute leaves no store, no directory, and no lock
//! behind. What the search puts on its machines it puts there under the held
//! lock, and every rented machine is let go of on the way out.
use vstd::prelude::*;
use vstd::string::*;

use crate::config::{DeviceSelector, Engagement, LoadedConfig, Pool};
use crate::devices::DeviceBinding;
use crate::fault::Fault;
use crate::routine::Routine;
use crate::text::{cat3, decimal};

verus! {

// ---- Where a search executes ------------------------------------------------------------

/// Whether a configuration leaves its worker layout to the program its format
/// is routed to: it states no layout, and the entry carries the digest that
/// only a migration writes.
pub open spec fn leaves_layout_to_program(config: LoadedConfig) -> bool {
    config.orchestrator.pool is None && (config.routed matches Some(routed)
        && routed.payload_digest is Some)
}

/// Whether this configuration leaves its worker layout to the program.
pub fn derives_workers(config: &LoadedConfig) -> (r: bool)
    ensures
        r == leaves_layout_to_program(*config),
{
    match &config.orchestrator.pool {
        Some(_) => false,
        None => match &config.routed {
            None => false,
            Some(routed) => match &routed.payload_digest {
                Some(_) => true,
                None => false,
            },
        },
    }
}

/// What a search is made of, once its machines are known.
#[derive(Debug, Clone, Copy, PartialEq, Eq, Structural)]
pub struct Plan {
    /// How many machines of yours it draws in.
    pub owned: usize,
    /// How many rented entries it draws on.
    pub rentals: usize,
    /// A program serves its format.
    pub routed: bool,
    /// The program has to reach those machines before they can serve.
    pub delivers: bool,
}

/// What a search with nowhere to execute is refused with.
pub open spec fn nowhere_text(engagement: Engagement) -> Seq<char> {
    match engagement {
        Engagement::Orchestrator =>
            "the orchestrator declares no workers and no devices, so this search has nothing to execute on; give [orchestrator] a worker layout, or pass --fleet to engage the machines [fleet] names"@,
        Engagement::Fleet =>
            "the orchestrator declares no workers and no devices, and [fleet] names no machine, so this search has nothing to execute on"@,
    }
}

/// Whether a search drawing in that many machines has somewhere to execute.
pub open spec fn can_execute(config: LoadedConfig, owned: nat, rentals: nat) -> bool {
    config.orchestrator.pool is Some || owned + rentals > 0 || leaves_layout_to_program(config)
}

/// How many of the fleet's machines an engagement draws in.
pub open spec fn drawn_in(engagement: Engagement, machines: usize) -> usize {
    if engagement == Engagement::Fleet {
        machines
    } else {
        0
    }
}

/// Whether `r` is the plan of a search over the machines its fleet draws in, or
/// the refusal of one with nowhere to execute.
pub open spec fn is_plan(
    r: Result<Plan, Fault>,
    config: LoadedConfig,
    engagement: Engagement,
    owned: usize,
    rentals: usize,
) -> bool {
    let o = drawn_in(engagement, owned);
    let n = drawn_in(engagement, rentals);
    if can_execute(config, o as nat, n as nat) {
        r == Ok::<Plan, Fault>(
            Plan {
                owned: o,
                rentals: n,
                routed: config.routed is Some,
                delivers: o + n > 0 && config.routed is Some,
            },
        )
    } else {
        r matches Err(fault) && fault@ == crate::fault::Complaint::Validation(
            nowhere_text(engagement),
        )
    }
}

/// Plans a search over the machines its fleet draws in, or refuses one with
/// nowhere to execute. Without the fleet engaged none is drawn in, and the
/// refusal names the flag that would.
pub fn plan(config: &LoadedConfig, engagement: Engagement, owned: usize, rentals: usize) -> (r:
    Result<Plan, Fault>)
    ensures
        is_plan(r, *config, engagement, owned, rentals),
{
    let fleet: bool = engagement == Engagement::Fleet;
    let o: usize = if fleet {
        owned
    } else {
        0
    };
    let n: usize = if fleet {
        rentals
    } else {
        0
    };
    let drawn: bool = o > 0 || n > 0;
    let laid_out: bool = match &config.orchestrator.pool {
        Some(_) => true,
        None => false,
    };
    if !laid_out && !drawn && !derives_workers(config) {
        return match engagement {
            Engagement::Orchestrator => Err(
                Fault::Validation(
                    "the orchestrator declares no workers and no devices, so this search has nothing to execute on; give [orchestrator] a worker layout, or pass --fleet to engage the machines [fleet] names".to_owned(),
                ),
            ),
            Engagement::Fleet => Err(
                Fault::Validation(
                    "the orchestrator declares no workers and no devices, and [fleet] names no machine, so this search has nothing to execute on".to_owned(),
                ),
            ),
        };
    }
    let routed: bool = match &config.routed {
        Some(_) => true,
        None => false,
    };
    Ok(Plan { owned: o, rentals: n, routed, delivers: drawn && routed })
}

// ---- Pools ---------------------------------------------------------------------------------

/// What the orchestrator's own pool is.
#[derive(Debug, Clone, Copy, PartialEq, Eq, Structural)]
pub enum LocalPlan {
    /// There is none: the fleet carries the search.
    Absent,
    /// Plain subprocesses, one per usable device of the program's own
    /// enumeration.
    Derived,
    /// Plain subprocesses, on the slots the execution settings make.
    Subprocesses,
    /// A container pool on this machine, once its image is confirmed present.
    Container,
}

/// What the orchestrator's own pool is for a configuration.
pub open spec fn local_plan_of(config: LoadedConfig) -> LocalPlan {
    if config.orchestrator.pool is None {
        if leaves_layout_to_program(config) {
            LocalPlan::Derived
        } else {
            LocalPlan::Absent
        }
    } else if config.orchestrator.container is None {
        LocalPlan::Subprocesses
    } else {
        LocalPlan::Container
    }
}

/// Decides the orchestrator's own pool.
pub fn local_pool(config: &LoadedConfig) -> (plan: LocalPlan)
    ensures
        plan == local_plan_of(*config),
{
    match &config.orchestrator.pool {
        None => {
            if derives_workers(config) {
                LocalPlan::Derived
            } else {
                LocalPlan::Absent
            }
        },
        Some(_) => match &config.orchestrator.container {
            None => LocalPlan::Subprocesses,
            Some(_) => LocalPlan::Container,
        },
    }
}

/// A planned search whose orchestrator has no pool of its own has the fleet
/// engaged, and draws in a machine of it.
pub proof fn a_planned_search_has_workers(
    r: Result<Plan, Fault>,
    config: LoadedConfig,
    engagement: Engagement,
    owned: usize,
    rentals: usize,
)
    requires
        is_plan(r, config, engagement, owned, rentals),
        r is Ok,
        local_plan_of(config) == LocalPlan::Absent,
    ensures
        engagement == Engagement::Fleet,
        r->Ok_0.owned == owned,
        r->Ok_0.rentals == rentals,
        r->Ok_0.owned + r->Ok_0.rentals > 0,
{
}

/// What a search is planned as. It is refused exactly where the orchestrator has
/// no layout, the fleet draws nothing in, and no program was carried here to lay
/// it out; the fleet's machines are drawn in, all of them, exactly where it is
/// engaged; and a program is delivered exactly where one serves the format and a
/// machine was drawn in.
pub proof fn what_a_search_is_planned_as(
    r: Result<Plan, Fault>,
    config: LoadedConfig,
    engagement: Engagement,
    owned: usize,
    rentals: usize,
)
    requires
        is_plan(r, config, engagement, owned, rentals),
    ensures
        r is Err <==> {
            &&& config.orchestrator.pool is None
            &&& engagement == Engagement::Orchestrator || (owned == 0 && rentals == 0)
            &&& !(config.routed matches Some(routed) && routed.payload_digest is Some)
        },
        r matches Ok(plan) ==> {
            &&& engagement == Engagement::Fleet ==> plan.owned == owned && plan.rentals == rentals
            &&& engagement == Engagement::Orchestrator ==> plan.owned == 0 && plan.rentals == 0
            &&& plan.routed <==> config.routed is Some
            &&& plan.delivers <==> plan.routed && (plan.owned > 0 || plan.rentals > 0)
        },
{
}

/// Engaging the fleet refuses nothing that the orchestrator alone would drive.
pub proof fn engaging_the_fleet_refuses_nothing_more(
    alone: Result<Plan, Fault>,
    engaged: Result<Plan, Fault>,
    config: LoadedConfig,
    owned: usize,
    rentals: usize,
)
    requires
        is_plan(alone, config, Engagement::Orchestrator, owned, rentals),
        is_plan(engaged, config, Engagement::Fleet, owned, rentals),
    ensures
        alone is Ok ==> engaged is Ok,
{
}

/// What the orchestrator's own pool is: a container one where a layout is stated
/// and a container with it, a plain one where the layout alone is, one the
/// program lays out where a migration carried it here without a layout, and none
/// otherwise.
pub proof fn what_the_own_pool_is(config: LoadedConfig)
    ensures
        ({
            let carried = config.routed matches Some(routed) && routed.payload_digest is Some;
            let stated = config.orchestrator.pool is Some;
            &&& local_plan_of(config) == LocalPlan::Container <==> stated
                && config.orchestrator.container is Some
            &&& local_plan_of(config) == LocalPlan::Subprocesses <==> stated
                && config.orchestrator.container is None
            &&& local_plan_of(config) == LocalPlan::Derived <==> !stated && carried
            &&& local_plan_of(config) == LocalPlan::Absent <==> !stated && !carried
        }),
{
}

/// The device selectors that resolve against this machine's own hardware: those
/// of a layout that runs in no container here.
pub open spec fn selectors_of(config: LoadedConfig) -> Seq<DeviceSelector> {
    match (config.orchestrator.pool, config.orchestrator.container) {
        (Some(Pool::Devices(selectors)), None) => selectors@,
        _ => Seq::empty(),
    }
}

/// The device selectors to resolve here; none for a search that never asked
/// about devices, which then never enumerates them.
pub fn resolve_devices(config: &LoadedConfig) -> (r: Option<&Vec<DeviceSelector>>)
    ensures
        match r {
            Some(selectors) => selectors@ == selectors_of(*config) && selectors@.len() > 0,
            None => selectors_of(*config).len() == 0,
        },
{
    match (&config.orchestrator.pool, &config.orchestrator.container) {
        (Some(Pool::Devices(selectors)), None) => {
            if selectors.len() == 0 {
                None
            } else {
                Some(selectors)
            }
        },
        _ => None,
    }
}

/// The slots of a container pool that needs no enumeration: plain workers, bound
/// to nothing. A layout of device tables resolves against what the machine's
/// own enumeration reports instead.
pub fn plain_slots(pool: &Pool) -> (r: Option<Vec<Option<DeviceBinding>>>)
    ensures
        match *pool {
            Pool::Workers(workers) => r matches Some(slots) && slots@.len() == workers && (forall|
                i: int,
            |
                0 <= i < slots@.len() ==> (#[trigger] slots@[i]) is None),
            Pool::Devices(_) => r is None,
        },
{
    match pool {
        Pool::Workers(workers) => {
            let mut slots: Vec<Option<DeviceBinding>> = Vec::new();
            let mut i: usize = 0;
            while i < *workers
                invariant
                    i <= *workers,
                    slots@.len() == i,
                    forall|k: int| 0 <= k < slots@.len() ==> (#[trigger] slots@[k]) is None,
                decreases *workers - i,
            {
                slots.push(None);
                i = i + 1;
            }
            Some(slots)
        },
        Pool::Devices(_) => None,
    }
}

/// The stem of a pool's container names: the start of the search's id, and the
/// pool's index.
pub open spec fn container_stem_of(search: Seq<char>, index: nat) -> Seq<char> {
    "sima-w-"@ + search.take(if search.len() < 12 {
        search.len() as int
    } else {
        12
    }) + "-"@ + crate::text::decimal_text(index)
}

/// The stem of a pool's container names. Ids are written in ASCII.
pub fn container_stem(search: &str, index: usize) -> (out: String)
    requires
        search.is_ascii(),
    ensures
        out@ == container_stem_of(search@, index as nat),
{
    let len: usize = search.unicode_len();
    let end: usize = if len < 12 {
        len
    } else {
        12
    };
    let start: &str = search.substring_char(0, end);
    proof {
        assert(start@ =~= search@.take(end as int));
    }
    let number: String = decimal(index as u64);
    let mut out: String = cat3("sima-w-", start, "-");
    out.append(number.as_str());
    out
}

proof fn lemma_digit_text(a: nat, b: nat)
    requires
        a < 10,
        b < 10,
        digit_char(a) == digit_char(b),
    ensures
        a == b,
{
    lemma_digit_is_one_char(a);
    lemma_digit_is_one_char(b);
}

spec fn digit_char(d: nat) -> char {
    crate::text::digit_text(d)[0]
}

proof fn lemma_digit_is_one_char(d: nat)
    requires
        d < 10,
    ensures
        crate::text::digit_text(d).len() == 1,
        digit_char(d) as u32 == '0' as u32 + d,
{
    reveal_strlit("0");
    reveal_strlit("1");
    reveal_strlit("2");
    reveal_strlit("3");
    reveal_strlit("4");
    reveal_strlit("5");
    reveal_strlit("6");
    reveal_strlit("7");
    reveal_strlit("8");
    reveal_strlit("9");
}

/// Different numbers have different numerals.
pub proof fn numerals_are_distinct(a: nat, b: nat)
    requires
        a != b,
    ensures
        crate::text::decimal_text(a) != crate::text::decimal_text(b),
    decreases a,
{
    let x = crate::text::decimal_text(a);
    let y = crate::text::decimal_text(b);
    lemma_digit_is_one_char(a % 10);
    lemma_digit_is_one_char(b % 10);
    lemma_numeral_shape(a);
    lemma_numeral_shape(b);
    if x == y {
        assert(x.last() == digit_char(a % 10));
        assert(y.last() == digit_char(b % 10));
        lemma_digit_text(a % 10, b % 10);
        if a < 10 && b < 10 {
        } else if a < 10 {
            lemma_numeral_shape(b / 10);
            assert(x.len() == 1);
            assert(y.len() >= 2);
        } else if b < 10 {
            lemma_numeral_shape(a / 10);
            assert(y.len() == 1);
            assert(x.len() >= 2);
        } else {
            assert(a / 10 != b / 10);
            numerals_are_distinct(a / 10, b / 10);
            assert(x.drop_last() =~= crate::text::decimal_text(a / 10));
            assert(y.drop_last() =~= crate::text::decimal_text(b / 10));
        }
    }
}

proof fn lemma_numeral_shape(n: nat)
    ensures
        crate::text::decimal_text(n).len() >= 1,
        crate::text::decimal_text(n).last() == digit_char(n % 10),
        n < 10 ==> crate::text::decimal_text(n).len() == 1,
        n >= 10 ==> crate::text::decimal_text(n).len() == crate::text::decimal_text(n / 10).len()
            + 1,
    decreases n,
{
    lemma_digit_is_one_char(n % 10);
    if n >= 10 {
        lemma_numeral_shape(n / 10);
    }
}

/// No two pools of one search share a container name stem.
pub proof fn container_stems_are_distinct(search: Seq<char>, a: nat, b: nat)
    requires
        a != b,
    ensures
        container_stem_of(search, a) != container_stem_of(search, b),
{
    numerals_are_distinct(a, b);
    let start = search.take(
        if search.len() < 12 {
            search.len() as int
        } else {
            12
        },
    );
    let head = "sima-w-"@ + start + "-"@;
    if container_stem_of(search, a) == container_stem_of(search, b) {
        assert(container_stem_of(search, a).skip(head.len() as int)
            =~= crate::text::decimal_text(a));
        assert(container_stem_of(search, b).skip(head.len() as int)
            =~= crate::text::decimal_text(b));
    }
}

/// The index of a machine of yours among the container pools: the orchestrator's
/// own takes the first, so no two pools on one machine share a container name.
pub fn owned_pool_index(machine: usize) -> (index: usize)
    requires
        machine < usize::MAX,
    ensures
        index == machine + 1,
        index != 0,
{
    machine + 1
}

/// What a pool's workers are spawned to answer for: the search's format, and the
/// digest of the program sent for it.
#[derive(Debug, Clone, PartialEq, Eq)]
pub struct WorkerProgram {
    /// The format.
    pub format: String,
    /// The program every worker answers back; none where no digest is stated.
    pub digest: Option<String>,
}

impl WorkerProgram {
    /// What the search of `config` spawns for on this machine.
    pub fn of(config: &LoadedConfig) -> (r: WorkerProgram)
        ensures
            r.format == config.format,
            r.digest == (match config.routed {
                Some(routed) => routed.payload_digest,
                None => None,
            }),
    {
        let digest: Option<String> = match &config.routed {
            Some(routed) => match &routed.payload_digest {
                Some(digest) => Some(digest.clone()),
                None => None,
            },
            None => None,
        };
        WorkerProgram { format: config.format.clone(), digest }
    }

    /// The same program again.
    pub fn copy(&self) -> (r: WorkerProgram)
        ensures
            r == *self,
    {
        let digest: Option<String> = match &self.digest {
            Some(digest) => Some(digest.clone()),
            None => None,
        };
        WorkerProgram { format: self.format.clone(), digest }
    }

    /// The same search on a machine a delivery reached: what that machine
    /// installed is what its workers answer, whatever this one holds.
    pub fn delivered(&self, payload: &str) -> (r: WorkerProgram)
        ensures
            r.format == self.format,
            r.digest matches Some(digest) && digest@ == payload@,
    {
        WorkerProgram { format: self.format.clone(), digest: Some(payload.to_owned()) }
    }
}

/// What the workers of a machine of yours run.
#[derive(Debug, Clone, PartialEq, Eq)]
pub enum MachineProgram {
    /// The image answers for the search's format itself.
    Image,
    /// The program a delivery installed under the machine's `root`.
    Delivered { root: String },
}

/// Whom a machine of yours is asked through for its devices.
#[derive(Debug, Clone, Copy, PartialEq, Eq, Structural)]
pub enum DevicesFrom {
    /// The image's worker, about the search's format.
    ImageWorker,
    /// The delivered program, over the domain service it answers: the image's
    /// worker cannot resolve a program's format.
    DeliveredProgram,
}

impl MachineProgram {
    /// Whom the machine is asked through for its devices, in a throwaway
    /// container where the pool's own containers run.
    pub fn devices(&self) -> (source: DevicesFrom)
        ensures
            source == (match *self {
                MachineProgram::Image => DevicesFrom::ImageWorker,
                MachineProgram::Delivered { .. } => DevicesFrom::DeliveredProgram,
            }),
    {
        match self {
            MachineProgram::Image => DevicesFrom::ImageWorker,
            MachineProgram::Delivered { .. } => DevicesFrom::DeliveredProgram,
        }
    }
}

/// The pool on one machine of yours.
#[derive(Debug, Clone, PartialEq, Eq)]
pub struct OwnedPool {
    /// Its index among the container pools.
    pub index: usize,
    /// What a worker there runs.
    pub machine: MachineProgram,
    /// What a worker there is expected to answer for.
    pub program: WorkerProgram,
}

/// Whether `pool` is the pool of the machine at `place`, whose entry names
/// `root`.
pub open spec fn is_owned_pool(
    pool: OwnedPool,
    place: int,
    root: String,
    program: WorkerProgram,
    delivered: Option<Seq<char>>,
) -> bool {
    &&& pool.index == place + 1
    &&& pool.program.format == program.format
    &&& match delivered {
        None => pool.machine is Image && pool.program.digest == program.digest,
        Some(payload) => {
            &&& pool.machine == (MachineProgram::Delivered { root })
            &&& pool.program.digest matches Some(digest)
            &&& digest@ == payload
        },
    }
}

/// The pools on the machines of yours the fleet drew in, whose entries name
/// `roots`. What was put on those machines decides both what a worker there
/// runs and what it is expected to answer.
pub fn owned_pools(roots: &Vec<String>, program: &WorkerProgram, delivered: Option<&str>) -> (pools:
    Vec<OwnedPool>)
    requires
        roots@.len() < usize::MAX,
    ensures
        pools@.len() == roots@.len(),
        forall|i: int|
            0 <= i < pools@.len() ==> is_owned_pool(
                #[trigger] pools@[i],
                i,
                roots@[i],
                *program,
                match delivered {
                    Some(payload) => Some(payload@),
                    None => None,
                },
            ),
{
    let mut pools: Vec<OwnedPool> = Vec::new();
    let mut i: usize = 0;
    while i < roots.len()
        invariant
            i <= roots@.len(),
            roots@.len() < usize::MAX,
            pools@.len() == i,
            forall|k: int|
                0 <= k < i ==> is_owned_pool(
                    #[trigger] pools@[k],
                    k,
                    roots@[k],
                    *program,
                    match delivered {
                        Some(payload) => Some(payload@),
                        None => None,
                    },
                ),
        decreases roots@.len() - i,
    {
        let pool: OwnedPool = match delivered {
            None => OwnedPool {
                index: owned_pool_index(i),
                machine: MachineProgram::Image,
                program: program.copy(),
            },
            Some(payload) => OwnedPool {
                index: owned_pool_index(i),
                machine: MachineProgram::Delivered { root: roots[i].clone() },
                program: program.delivered(payload),
            },
        };
        pools.push(pool);
        i = i + 1;
    }
    pools
}

/// Where a pool of workers comes from.
#[derive(Debug, Clone, Copy, PartialEq, Eq, Structural)]
pub enum PoolSource {
    /// The orchestrator's own.
    Local,
    /// The machine of yours at this place.
    Owned(usize),
    /// The rented machine at this place.
    Rented(usize),
}

/// The pools in the order their workers are numbered: the orchestrator's own
/// first, then one per machine of yours, then one per rented machine.
pub open spec fn pools_of(local: bool, owned: nat, rented: nat) -> Seq<PoolSource> {
    (if local {
        seq![PoolSource::Local]
    } else {
        Seq::empty()
    }) + Seq::new(owned, |i: int| PoolSource::Owned(i as usize)) + Seq::new(
        rented,
        |i: int| PoolSource::Rented(i as usize),
    )
}

/// Lists the pools in order.
pub fn pool_order(local: bool, owned: usize, rented: usize) -> (out: Vec<PoolSource>)
    ensures
        out@ == pools_of(local, owned as nat, rented as nat),
{
    let mut out: Vec<PoolSource> = Vec::new();
    if local {
        out.push(PoolSource::Local);
    }
    let ghost head = out@;
    proof {
        assert(head =~= (if local {
            seq![PoolSource::Local]
        } else {
            Seq::empty()
        }));
    }
    let mut i: usize = 0;
    while i < owned
        invariant
            i <= owned,
            out@ == head + Seq::new(i as nat, |k: int| PoolSource::Owned(k as usize)),
        decreases owned - i,
    {
        out.push(PoolSource::Owned(i));
        i = i + 1;
        proof {
            assert(out@ =~= head + Seq::new(i as nat, |k: int| PoolSource::Owned(k as usize)));
        }
    }
    let ghost middle = out@;
    let mut j: usize = 0;
    while j < rented
        invariant
            j <= rented,
            out@ == middle + Seq::new(j as nat, |k: int| PoolSource::Rented(k as usize)),
        decreases rented - j,
    {
        out.push(PoolSource::Rented(j));
        j = j + 1;
        proof {
            assert(out@ =~= middle + Seq::new(j as nat, |k: int| PoolSource::Rented(k as usize)));
        }
    }
    out
}

/// The pools are numbered the orchestrator's own first, then the machines of
/// yours, then the rented ones, each in its own order and none left out.
pub proof fn every_pool_has_its_place(local: bool, owned: nat, rented: nat)
    requires
        owned <= usize::MAX,
        rented <= usize::MAX,
    ensures
        ({
            let pools = pools_of(local, owned, rented);
            let first: int = if local {
                1
            } else {
                0
            };
            &&& pools.len() == first + owned + rented
            &&& local ==> pools[0] == PoolSource::Local
            &&& forall|i: int|
                first <= i < first + owned ==> #[trigger] pools[i] == PoolSource::Owned(
                    (i - first) as usize,
                )
            &&& forall|i: int|
                first + owned <= i < pools.len() ==> #[trigger] pools[i] == PoolSource::Rented(
                    (i - first - owned) as usize,
                )
        }),
{
}

// ---- Stopping the supervisor ------------------------------------------------------------------

/// What a record says of the search as a whole.
#[derive(Debug, Clone, Copy, PartialEq, Eq, Structural)]
pub enum SearchNews {
    Finalized,
    Failed,
    Interrupted,
    Faulted,
    /// Nothing about its end.
    Other,
}

/// Whether a record ends the search, so that the supervisor stops and a
/// replacement still being acquired is cancelled. A fault ends it without an
/// event of the search's own.
pub fn stops_supervisor(news: SearchNews) -> (r: bool)
    ensures
        r == (news != SearchNews::Other),
{
    match news {
        SearchNews::Other => false,
        _ => true,
    }
}

// ---- The whole -----------------------------------------------------------------------------------

/// Where the driving of a search is.
#[derive(Debug, Clone, Copy, PartialEq, Eq, Structural)]
pub enum DrivePhase {
    /// The domain and the generator are dispatched.
    Dispatch,
    /// The machines are drawn in, and the search planned.
    Plan,
    /// What is to be delivered is known to be deliverable.
    CheckSendable,
    /// The device selectors resolve.
    ResolveDevices,
    /// The orchestrator's own pool is built.
    BuildLocalPool,
    /// The control plane of a rental is built.
    BuildProvider(usize),
    /// How its machines are reached is decided.
    BuildMode(usize),
    /// The image of a machine of yours is confirmed present.
    CheckImage(usize),
    /// The pools of the machines of yours are built, nothing being delivered.
    BuildOwnedEarly,
    /// The store is opened.
    OpenStore,
    /// The search's lock is taken.
    Lock,
    /// The search is registered.
    Register,
    /// The program is held against the one the search was last driven by.
    Bind,
    /// The program becomes objects.
    Ingest,
    /// The program is put on the machines of yours.
    Deliver,
    /// Their pools are built over it.
    BuildOwnedLate,
    /// The machines of a rental are acquired.
    Acquire(usize),
    /// Putting the search on its machines failed: did the operator let go?
    ReadInterrupt,
    /// The search is driven.
    Drive,
    /// The wall-clock ceiling ended it, which is recorded.
    ReportCeiling { drove: bool },
    /// Every rented machine is let go of.
    Release { drove: bool },
    /// It is over.
    Over(DriveEnd),
}

/// How the driving of a search ended.
#[derive(Debug, Clone, Copy, PartialEq, Eq, Structural)]
pub enum DriveEnd {
    /// The drive's own outcome is the answer.
    Outcome,
    /// The operator let go before anything executed.
    Interrupted,
    /// The drive failed, and its failure is the answer.
    DriveFailed,
    /// The drive came to an outcome, and a machine could not be torn down.
    TeardownFailed,
    /// An operation failed, and its failure is the answer.
    Raised,
}

/// How a driven search came out.
#[derive(Debug, Clone, PartialEq, Eq)]
pub enum Driven<O> {
    /// The drive's own outcome.
    Outcome(O),
    /// The operator let go before anything executed.
    Interrupted,
}

/// What driving a search is answered with, where it ended so: as the `drive`
/// itself was, that the operator let go, or with the failure that was `held`.
pub fn drive_outcome<O, E>(end: DriveEnd, drive: Option<Result<O, E>>, held: Option<E>) -> (r:
    Result<Driven<O>, Option<E>>)
    ensures
        match end {
            DriveEnd::Outcome | DriveEnd::DriveFailed => r == (match drive {
                Some(Ok(outcome)) => Ok::<Driven<O>, Option<E>>(Driven::Outcome(outcome)),
                Some(Err(failure)) => Err::<Driven<O>, Option<E>>(Some(failure)),
                None => Err::<Driven<O>, Option<E>>(None),
            }),
            DriveEnd::Interrupted => r == Ok::<Driven<O>, Option<E>>(Driven::Interrupted),
            DriveEnd::TeardownFailed | DriveEnd::Raised => r == Err::<Driven<O>, Option<E>>(held),
        },
{
    match end {
        DriveEnd::Outcome | DriveEnd::DriveFailed => match drive {
            Some(Ok(outcome)) => Ok(Driven::Outcome(outcome)),
            Some(Err(failure)) => Err(Some(failure)),
            None => Err(None),
        },
        DriveEnd::Interrupted => Ok(Driven::Interrupted),
        DriveEnd::TeardownFailed | DriveEnd::Raised => Err(held),
    }
}

/// What the driving of a search does next.
#[derive(Debug, Clone, Copy, PartialEq, Eq, Structural)]
pub enum DriveAction {
    Dispatch,
    Plan,
    CheckSendable,
    ResolveDevices,
    BuildLocalPool,
    BuildProvider(usize),
    BuildMode(usize),
    CheckImage(usize),
    BuildOwnedPools,
    OpenStore,
    Lock,
    Register,
    Bind,
    Ingest,
    Deliver,
    Acquire(usize),
    ReadInterrupt,
    /// Drive the search, with a supervisor beside it where machines are rented.
    Drive { supervised: bool },
    ReportCeiling,
    Release,
    Finish(DriveEnd),
}

/// What came of an action of driving a search.
#[derive(Debug, Clone, Copy, PartialEq, Eq, Structural)]
pub enum DriveAnswer {
    Done,
    Failed,
    Planned(Plan),
    Interrupted(bool),
    /// The drive returned: whether with an outcome, and whether the ceiling
    /// fired.
    Drove { outcome: bool, ceiling: bool },
}

/// The driving of a search.
#[derive(Debug, Clone, Copy, PartialEq, Eq, Structural)]
pub struct Driving {
    /// What the search is made of; nothing until it is planned.
    pub plan: Plan,
    /// Where it is.
    pub phase: DrivePhase,
}

impl Driving {
    /// A search before anything was done.
    pub open spec fn starting() -> Driving {
        Driving {
            plan: Plan { owned: 0, rentals: 0, routed: false, delivers: false },
            phase: DrivePhase::Dispatch,
        }
    }

    /// This search in another phase.
    pub open spec fn at(self, phase: DrivePhase) -> Driving {
        Driving { phase, ..self }
    }

    /// The place a phase is at is one there is.
    pub open spec fn wf(self) -> bool {
        match self.phase {
            DrivePhase::BuildProvider(i) => i < self.plan.rentals,
            DrivePhase::BuildMode(i) => i < self.plan.rentals,
            DrivePhase::CheckImage(i) => i < self.plan.owned,
            DrivePhase::Acquire(i) => i < self.plan.rentals,
            DrivePhase::CheckSendable => self.plan.delivers,
            DrivePhase::BuildOwnedEarly => !self.plan.delivers,
            DrivePhase::BuildOwnedLate => self.plan.delivers,
            DrivePhase::Ingest => self.plan.delivers,
            DrivePhase::Bind => self.plan.routed,
            _ => true,
        }
    }

    /// The action a phase calls for.
    pub open spec fn act(self) -> DriveAction {
        match self.phase {
            DrivePhase::Dispatch => DriveAction::Dispatch,
            DrivePhase::Plan => DriveAction::Plan,
            DrivePhase::CheckSendable => DriveAction::CheckSendable,
            DrivePhase::ResolveDevices => DriveAction::ResolveDevices,
            DrivePhase::BuildLocalPool => DriveAction::BuildLocalPool,
            DrivePhase::BuildProvider(i) => DriveAction::BuildProvider(i),
            DrivePhase::BuildMode(i) => DriveAction::BuildMode(i),
            DrivePhase::CheckImage(i) => DriveAction::CheckImage(i),
            DrivePhase::BuildOwnedEarly => DriveAction::BuildOwnedPools,
            DrivePhase::OpenStore => DriveAction::OpenStore,
            DrivePhase::Lock => DriveAction::Lock,
            DrivePhase::Register => DriveAction::Register,
            DrivePhase::Bind => DriveAction::Bind,
            DrivePhase::Ingest => DriveAction::Ingest,
            DrivePhase::Deliver => DriveAction::Deliver,
            DrivePhase::BuildOwnedLate => DriveAction::BuildOwnedPools,
            DrivePhase::Acquire(i) => DriveAction::Acquire(i),
            DrivePhase::ReadInterrupt => DriveAction::ReadInterrupt,
            DrivePhase::Drive => DriveAction::Drive { supervised: self.plan.rentals > 0 },
            DrivePhase::ReportCeiling { .. } => DriveAction::ReportCeiling,
            DrivePhase::Release { .. } => DriveAction::Release,
            DrivePhase::Over(end) => DriveAction::Finish(end),
        }
    }

    /// The control planes from the one at `i` on, then how their machines are
    /// reached.
    pub open spec fn providers_from(self, i: usize) -> Driving {
        if i < self.plan.rentals {
            self.at(DrivePhase::BuildProvider(i))
        } else {
            self.modes_from(0)
        }
    }

    /// How the machines from rental `i` on are reached, then the images.
    pub open spec fn modes_from(self, i: usize) -> Driving {
        if i < self.plan.rentals {
            self.at(DrivePhase::BuildMode(i))
        } else {
            self.images_from(0)
        }
    }

    /// The images of the machines of yours from `i` on, then their pools where
    /// nothing is delivered, then the store.
    pub open spec fn images_from(self, i: usize) -> Driving {
        if i < self.plan.owned {
            self.at(DrivePhase::CheckImage(i))
        } else if !self.plan.delivers {
            self.at(DrivePhase::BuildOwnedEarly)
        } else {
            self.at(DrivePhase::OpenStore)
        }
    }

    /// The rentals from `i` on, then the drive.
    pub open spec fn rentals_from(self, i: usize) -> Driving {
        if i < self.plan.rentals {
            self.at(DrivePhase::Acquire(i))
        } else {
            self.at(DrivePhase::Drive)
        }
    }

    /// Past the registration and the binding: the ingest where a program is
    /// delivered.
    pub open spec fn bound(self) -> Driving {
        if self.plan.delivers {
            self.at(DrivePhase::Ingest)
        } else {
            self.at(DrivePhase::Deliver)
        }
    }

    /// Where an answer takes the search.
    pub open spec fn next(self, answer: DriveAnswer) -> Driving {
        match (self.phase, answer) {
            (DrivePhase::Over(_), _) => self,
            (DrivePhase::Deliver, DriveAnswer::Failed) => self.at(DrivePhase::ReadInterrupt),
            (DrivePhase::BuildOwnedLate, DriveAnswer::Failed) => self.at(DrivePhase::ReadInterrupt),
            (DrivePhase::Acquire(_), DriveAnswer::Failed) => self.at(DrivePhase::ReadInterrupt),
            (DrivePhase::Release { drove }, DriveAnswer::Failed) => self.at(
                DrivePhase::Over(
                    if drove {
                        DriveEnd::TeardownFailed
                    } else {
                        DriveEnd::DriveFailed
                    },
                ),
            ),
            (_, DriveAnswer::Failed) => self.at(DrivePhase::Over(DriveEnd::Raised)),
            (DrivePhase::Dispatch, DriveAnswer::Done) => self.at(DrivePhase::Plan),
            (DrivePhase::Plan, DriveAnswer::Planned(plan)) => if plan.delivers {
                Driving { plan, phase: DrivePhase::CheckSendable }
            } else {
                Driving { plan, phase: DrivePhase::ResolveDevices }
            },
            (DrivePhase::CheckSendable, DriveAnswer::Done) => self.at(DrivePhase::ResolveDevices),
            (DrivePhase::ResolveDevices, DriveAnswer::Done) => self.at(DrivePhase::BuildLocalPool),
            (DrivePhase::BuildLocalPool, DriveAnswer::Done) => self.providers_from(0),
            (DrivePhase::BuildProvider(i), DriveAnswer::Done) => self.providers_from(
                (i + 1) as usize,
            ),
            (DrivePhase::BuildMode(i), DriveAnswer::Done) => self.modes_from((i + 1) as usize),
            (DrivePhase::CheckImage(i), DriveAnswer::Done) => self.images_from((i + 1) as usize),
            (DrivePhase::BuildOwnedEarly, DriveAnswer::Done) => self.at(DrivePhase::OpenStore),
            (DrivePhase::OpenStore, DriveAnswer::Done) => self.at(DrivePhase::Lock),
            (DrivePhase::Lock, DriveAnswer::Done) => self.at(DrivePhase::Register),
            (DrivePhase::Register, DriveAnswer::Done) => if self.plan.routed {
                self.at(DrivePhase::Bind)
            } else {
                self.bound()
            },
            (DrivePhase::Bind, DriveAnswer::Done) => self.bound(),
            (DrivePhase::Ingest, DriveAnswer::Done) => self.at(DrivePhase::Deliver),
            (DrivePhase::Deliver, DriveAnswer::Done) => if self.plan.delivers {
                self.at(DrivePhase::BuildOwnedLate)
            } else {
                self.rentals_from(0)
            },
            (DrivePhase::BuildOwnedLate, DriveAnswer::Done) => self.rentals_from(0),
            (DrivePhase::Acquire(i), DriveAnswer::Done) => self.rentals_from((i + 1) as usize),
            (DrivePhase::ReadInterrupt, DriveAnswer::Interrupted(interrupted)) => self.at(
                DrivePhase::Over(
                    if interrupted {
                        DriveEnd::Interrupted
                    } else {
                        DriveEnd::Raised
                    },
                ),
            ),
            (DrivePhase::Drive, DriveAnswer::Drove { outcome, ceiling }) => if ceiling {
                self.at(DrivePhase::ReportCeiling { drove: outcome })
            } else {
                self.at(DrivePhase::Release { drove: outcome })
            },
            (DrivePhase::ReportCeiling { drove }, DriveAnswer::Done) => self.at(
                DrivePhase::Release { drove },
            ),
            (DrivePhase::Release { drove }, DriveAnswer::Done) => self.at(
                DrivePhase::Over(
                    if drove {
                        DriveEnd::Outcome
                    } else {
                        DriveEnd::DriveFailed
                    },
                ),
            ),
            _ => self,
        }
    }

    /// Begins to drive a search.
    pub fn begin() -> (r: Driving)
        ensures
            r == Driving::starting(),
            r.wf(),
    {
        Driving {
            plan: Plan { owned: 0, rentals: 0, routed: false, delivers: false },
            phase: DrivePhase::Dispatch,
        }
    }

    /// What to do next.
    pub fn action(&self) -> (r: DriveAction)
        ensures
            r == self.act(),
    {
        match self.phase {
            DrivePhase::Dispatch => DriveAction::Dispatch,
            DrivePhase::Plan => DriveAction::Plan,
            DrivePhase::CheckSendable => DriveAction::CheckSendable,
            DrivePhase::ResolveDevices => DriveAction::ResolveDevices,
            DrivePhase::BuildLocalPool => DriveAction::BuildLocalPool,
            DrivePhase::BuildProvider(i) => DriveAction::BuildProvider(i),
            DrivePhase::BuildMode(i) => DriveAction::BuildMode(i),
            DrivePhase::CheckImage(i) => DriveAction::CheckImage(i),
            DrivePhase::BuildOwnedEarly => DriveAction::BuildOwnedPools,
            DrivePhase::OpenStore => DriveAction::OpenStore,
            DrivePhase::Lock => DriveAction::Lock,
            DrivePhase::Register => DriveAction::Register,
            DrivePhase::Bind => DriveAction::Bind,
            DrivePhase::Ingest => DriveAction::Ingest,
            DrivePhase::Deliver => DriveAction::Deliver,
            DrivePhase::BuildOwnedLate => DriveAction::BuildOwnedPools,
            DrivePhase::Acquire(i) => DriveAction::Acquire(i),
            DrivePhase::ReadInterrupt => DriveAction::ReadInterrupt,
            DrivePhase::Drive => DriveAction::Drive { supervised: self.plan.rentals > 0 },
            DrivePhase::ReportCeiling { .. } => DriveAction::ReportCeiling,
            DrivePhase::Release { .. } => DriveAction::Release,
            DrivePhase::Over(end) => DriveAction::Finish(end),
        }
    }

    fn to(self, phase: DrivePhase) -> (r: Driving)
        ensures
            r == self.at(phase),
    {
        Driving { phase, ..self }
    }

    fn to_images(self, i: usize) -> (r: Driving)
        ensures
            r == self.images_from(i),
    {
        if i < self.plan.owned {
            self.to(DrivePhase::CheckImage(i))
        } else if !self.plan.delivers {
            self.to(DrivePhase::BuildOwnedEarly)
        } else {
            self.to(DrivePhase::OpenStore)
        }
    }

    fn to_modes(self, i: usize) -> (r: Driving)
        ensures
            r == self.modes_from(i),
    {
        if i < self.plan.rentals {
            self.to(DrivePhase::BuildMode(i))
        } else {
            self.to_images(0)
        }
    }

    fn to_providers(self, i: usize) -> (r: Driving)
        ensures
            r == self.providers_from(i),
    {
        if i < self.plan.rentals {
            self.to(DrivePhase::BuildProvider(i))
        } else {
            self.to_modes(0)
        }
    }

    fn to_rentals(self, i: usize) -> (r: Driving)
        ensures
            r == self.rentals_from(i),
    {
        if i < self.plan.rentals {
            self.to(DrivePhase::Acquire(i))
        } else {
            self.to(DrivePhase::Drive)
        }
    }

    fn to_bound(self) -> (r: Driving)
        ensures
            r == self.bound(),
    {
        if self.plan.delivers {
            self.to(DrivePhase::Ingest)
        } else {
            self.to(DrivePhase::Deliver)
        }
    }

    /// The search after the answers, one after another.
    pub open spec fn after(self, answers: Seq<DriveAnswer>) -> Driving
        decreases answers.len(),
    {
        if answers.len() == 0 {
            self
        } else {
            self.after(answers.drop_last()).next(answers.last())
        }
    }

    /// How far along the drive a phase is.
    pub open spec fn rank(self) -> nat {
        match self.phase {
            DrivePhase::Dispatch => 0,
            DrivePhase::Plan => 1,
            DrivePhase::CheckSendable => 2,
            DrivePhase::ResolveDevices => 3,
            DrivePhase::BuildLocalPool => 4,
            DrivePhase::BuildProvider(_) => 5,
            DrivePhase::BuildMode(_) => 6,
            DrivePhase::CheckImage(_) => 7,
            DrivePhase::BuildOwnedEarly => 8,
            DrivePhase::OpenStore => 9,
            DrivePhase::Lock => 10,
            DrivePhase::Register => 11,
            DrivePhase::Bind => 12,
            DrivePhase::Ingest => 13,
            DrivePhase::Deliver => 14,
            DrivePhase::BuildOwnedLate => 15,
            DrivePhase::Acquire(_) => 16,
            DrivePhase::ReadInterrupt => 17,
            DrivePhase::Drive => 18,
            DrivePhase::ReportCeiling { .. } => 19,
            DrivePhase::Release { .. } => 20,
            DrivePhase::Over(_) => 21,
        }
    }
}

/// One step of driving a search: where the answer to its action takes it.
pub fn orchestrate(at: Driving, answer: DriveAnswer) -> (r: Driving)
    requires
        at.wf(),
    ensures
        r == at.next(answer),
        r.wf(),
{
    match (at.phase, answer) {
        (DrivePhase::Over(_), _) => at,
        (DrivePhase::Deliver, DriveAnswer::Failed) => at.to(DrivePhase::ReadInterrupt),
        (DrivePhase::BuildOwnedLate, DriveAnswer::Failed) => at.to(DrivePhase::ReadInterrupt),
        (DrivePhase::Acquire(_), DriveAnswer::Failed) => at.to(DrivePhase::ReadInterrupt),
        (DrivePhase::Release { drove }, DriveAnswer::Failed) => {
            if drove {
                at.to(DrivePhase::Over(DriveEnd::TeardownFailed))
            } else {
                at.to(DrivePhase::Over(DriveEnd::DriveFailed))
            }
        },
        (_, DriveAnswer::Failed) => at.to(DrivePhase::Over(DriveEnd::Raised)),
        (DrivePhase::Dispatch, DriveAnswer::Done) => at.to(DrivePhase::Plan),
        (DrivePhase::Plan, DriveAnswer::Planned(plan)) => {
            if plan.delivers {
                Driving { plan, phase: DrivePhase::CheckSendable }
            } else {
                Driving { plan, phase: DrivePhase::ResolveDevices }
            }
        },
        (DrivePhase::CheckSendable, DriveAnswer::Done) => at.to(DrivePhase::ResolveDevices),
        (DrivePhase::ResolveDevices, DriveAnswer::Done) => at.to(DrivePhase::BuildLocalPool),
        (DrivePhase::BuildLocalPool, DriveAnswer::Done) => at.to_providers(0),
        (DrivePhase::BuildProvider(i), DriveAnswer::Done) => at.to_providers(i + 1),
        (DrivePhase::BuildMode(i), DriveAnswer::Done) => at.to_modes(i + 1),
        (DrivePhase::CheckImage(i), DriveAnswer::Done) => at.to_images(i + 1),
        (DrivePhase::BuildOwnedEarly, DriveAnswer::Done) => at.to(DrivePhase::OpenStore),
        (DrivePhase::OpenStore, DriveAnswer::Done) => at.to(DrivePhase::Lock),
        (DrivePhase::Lock, DriveAnswer::Done) => at.to(DrivePhase::Register),
        (DrivePhase::Register, DriveAnswer::Done) => {
            if at.plan.routed {
                at.to(DrivePhase::Bind)
            } else {
                at.to_bound()
            }
        },
        (DrivePhase::Bind, DriveAnswer::Done) => at.to_bound(),
        (DrivePhase::Ingest, DriveAnswer::Done) => at.to(DrivePhase::Deliver),
        (DrivePhase::Deliver, DriveAnswer::Done) => {
            if at.plan.delivers {
                at.to(DrivePhase::BuildOwnedLate)
            } else {
                at.to_rentals(0)
            }
        },
        (DrivePhase::BuildOwnedLate, DriveAnswer::Done) => at.to_rentals(0),
        (DrivePhase::Acquire(i), DriveAnswer::Done) => at.to_rentals(i + 1),
        (DrivePhase::ReadInterrupt, DriveAnswer::Interrupted(interrupted)) => {
            if interrupted {
                at.to(DrivePhase::Over(DriveEnd::Interrupted))
            } else {
                at.to(DrivePhase::Over(DriveEnd::Raised))
            }
        },
        (DrivePhase::Drive, DriveAnswer::Drove { outcome, ceiling }) => {
            if ceiling {
                at.to(DrivePhase::ReportCeiling { drove: outcome })
            } else {
                at.to(DrivePhase::Release { drove: outcome })
            }
        },
        (DrivePhase::ReportCeiling { drove }, DriveAnswer::Done) => at.to(
            DrivePhase::Release { drove },
        ),
        (DrivePhase::Release { drove }, DriveAnswer::Done) => {
            if drove {
                at.to(DrivePhase::Over(DriveEnd::Outcome))
            } else {
                at.to(DrivePhase::Over(DriveEnd::DriveFailed))
            }
        },
        _ => at,
    }
}

// ---- Laws ------------------------------------------------------------------------------------------

/// A drive never goes back, and past its plan the plan stands.
pub proof fn a_drive_never_goes_back(at: Driving, answers: Seq<DriveAnswer>)
    ensures
        at.after(answers).rank() >= at.rank(),
        at.rank() > 1 ==> at.after(answers).plan == at.plan,
    decreases answers.len(),
{
    if answers.len() > 0 {
        a_drive_never_goes_back(at, answers.drop_last());
    }
}

/// A search that is refused, or whose machines cannot be reached, leaves nothing
/// behind: whatever fails before the store is opened ends the drive there, and
/// the store is opened only once every control plane, mode, image, and early
/// pool is in place.
pub proof fn nothing_is_left_behind_by_a_refusal(at: Driving, answers: Seq<DriveAnswer>)
    requires
        at.rank() < 9,
    ensures
        ({
            let now = at.next(DriveAnswer::Failed).after(answers);
            now.act() == DriveAction::Finish(DriveEnd::Raised)
        }),
    decreases answers.len(),
{
    if answers.len() > 0 {
        nothing_is_left_behind_by_a_refusal(at, answers.drop_last());
    }
}

/// The store is opened only after the last of what precedes it was done: the
/// last image, or the early pools, or the orchestrator's own pool and the last
/// mode where there is neither.
pub proof fn the_store_comes_after_every_check(at: Driving, answer: DriveAnswer)
    requires
        at.wf(),
        at.phase != DrivePhase::OpenStore,
        at.next(answer).phase == DrivePhase::OpenStore,
    ensures
        answer == DriveAnswer::Done,
        at.phase == DrivePhase::BuildOwnedEarly || (at.plan.delivers && (at.phase
            == DrivePhase::CheckImage((at.plan.owned - 1) as usize) || (at.plan.owned == 0 && (
        at.phase == DrivePhase::BuildMode((at.plan.rentals - 1) as usize) || (at.plan.rentals == 0
            && at.phase == DrivePhase::BuildLocalPool))))),
{
}

/// The lock is held before the program is bound, ingested, or delivered, and
/// before any machine is rented.
pub proof fn nothing_is_put_on_a_machine_before_the_lock(answers: Seq<DriveAnswer>)
    ensures
        ({
            let now = Driving::starting().after(answers);
            11 <= now.rank() <= 20 ==> exists|k: int|
                0 <= k < answers.len() && #[trigger] answers[k] == DriveAnswer::Done
                    && Driving::starting().after(answers.take(k)).phase == DrivePhase::Lock
        }),
    decreases answers.len(),
{
    if answers.len() > 0 {
        let rest = answers.drop_last();
        let last = answers.len() - 1;
        nothing_is_put_on_a_machine_before_the_lock(rest);
        assert(answers.take(last) =~= rest);
        assert(answers[last] == answers.last());
        if exists|k: int|
            0 <= k < rest.len() && #[trigger] rest[k] == DriveAnswer::Done
                && Driving::starting().after(rest.take(k)).phase == DrivePhase::Lock {
            let k = choose|k: int|
                0 <= k < rest.len() && #[trigger] rest[k] == DriveAnswer::Done
                    && Driving::starting().after(rest.take(k)).phase == DrivePhase::Lock;
            assert(rest.take(k) =~= answers.take(k));
            assert(answers[k] == rest[k]);
        }
    }
}

/// A search that was driven lets go of its machines before it is over, unless
/// recording its ceiling failed; and its own failure stands before a teardown's.
pub proof fn a_driven_search_lets_its_machines_go(at: Driving, answer: DriveAnswer)
    requires
        at.rank() >= 18,
        !(at.phase is Over),
        at.next(answer).phase is Over,
    ensures
        match at.phase {
            DrivePhase::Release { drove } => at.next(answer).phase == DrivePhase::Over(
                if !drove {
                    DriveEnd::DriveFailed
                } else if answer == DriveAnswer::Failed {
                    DriveEnd::TeardownFailed
                } else {
                    DriveEnd::Outcome
                },
            ),
            _ => answer == DriveAnswer::Failed && at.next(answer).phase == DrivePhase::Over(
                DriveEnd::Raised,
            ),
        },
{
}

/// Letting go while the search is being put on its machines is answered as
/// letting go during the work: the search is interrupted, and nothing executed.
pub proof fn letting_go_of_a_placement_interrupts(at: Driving)
    requires
        at.wf(),
        at.phase is Deliver || at.phase is BuildOwnedLate || at.phase is Acquire,
    ensures
        at.next(DriveAnswer::Failed).next(DriveAnswer::Interrupted(true)).act()
            == DriveAction::Finish(DriveEnd::Interrupted),
        at.next(DriveAnswer::Failed).next(DriveAnswer::Interrupted(false)).act()
            == DriveAction::Finish(DriveEnd::Raised),
{
}

impl Routine for Driving {
    type Action = DriveAction;

    type Answer = DriveAnswer;

    open spec fn calls_for(self) -> DriveAction {
        self.act()
    }

    open spec fn reached(self, answers: Seq<DriveAnswer>) -> Driving {
        self.after(answers)
    }

    open spec fn can_answer(action: DriveAction, answer: DriveAnswer) -> bool {
        answer is Failed && !(action is Finish) || match action {
            DriveAction::Plan => answer is Planned,
            DriveAction::ReadInterrupt => answer is Interrupted,
            DriveAction::Drive { .. } => answer is Drove,
            DriveAction::Finish(_) => false,
            _ => answer is Done,
        }
    }
}

/// What the drive was told of its plan, and nothing before that.
pub open spec fn planned_by(answers: Seq<DriveAnswer>) -> Option<Plan> {
    match crate::routine::answer_to(Driving::starting(), answers, DriveAction::Plan) {
        Some(DriveAnswer::Planned(plan)) => Some(plan),
        _ => None,
    }
}

/// Whether the action was called for and done.
#[verifier::inline]
pub open spec fn drive_did(answers: Seq<DriveAnswer>, action: DriveAction) -> bool {
    crate::routine::did(Driving::starting(), answers, action, DriveAnswer::Done)
}

/// A search is driven only once everything its plan asks for was called for and
/// done, whether or not it delivers a program: every control plane and mode of
/// its rentals, every image of its machines, the store, the lock, the
/// registration, the delivery, and the acquisition of every rental. What the
/// plan does not ask for is not called for.
pub proof fn a_search_is_driven_once_everything_is_in_place(answers: Seq<DriveAnswer>)
    ensures
        ({
            let act = Driving::starting().after(answers).act();
            (act is Drive || act is ReportCeiling || act is Release || act == DriveAction::Finish(
                DriveEnd::Outcome,
            ) || act == DriveAction::Finish(DriveEnd::DriveFailed) || act == DriveAction::Finish(
                DriveEnd::TeardownFailed,
            )) ==> {
                &&& planned_by(answers) matches Some(plan)
                &&& forall|i: usize|
                    i < plan.rentals ==> #[trigger] drive_did(answers, DriveAction::Acquire(i))
                &&& forall|i: usize|
                    i < plan.rentals ==> #[trigger] drive_did(answers, DriveAction::BuildProvider(i))
                &&& forall|i: usize|
                    i < plan.rentals ==> #[trigger] drive_did(answers, DriveAction::BuildMode(i))
                &&& forall|i: usize|
                    i < plan.owned ==> #[trigger] drive_did(answers, DriveAction::CheckImage(i))
                &&& drive_did(answers, DriveAction::Dispatch)
                &&& plan.delivers ==> drive_did(answers, DriveAction::CheckSendable)
                &&& drive_did(answers, DriveAction::ResolveDevices)
                &&& drive_did(answers, DriveAction::BuildLocalPool)
                &&& drive_did(answers, DriveAction::BuildOwnedPools)
                &&& drive_did(answers, DriveAction::OpenStore)
                &&& drive_did(answers, DriveAction::Lock)
                &&& drive_did(answers, DriveAction::Register)
                &&& plan.routed ==> drive_did(answers, DriveAction::Bind)
                &&& plan.delivers ==> drive_did(answers, DriveAction::Ingest)
                &&& drive_did(answers, DriveAction::Deliver)
                &&& act matches DriveAction::Drive { supervised } ==> supervised == (plan.rentals
                    > 0)
            }
        }),
{
    lemma_in_place_so_far(answers);
}

/// A drive that was not cut short before the search was driven.
spec fn in_order(at: Driving) -> bool {
    &&& at.phase != DrivePhase::ReadInterrupt
    &&& at.phase != DrivePhase::Over(DriveEnd::Raised)
    &&& at.phase != DrivePhase::Over(DriveEnd::Interrupted)
}

#[verifier::rlimit(30)]
proof fn lemma_in_place_so_far(answers: Seq<DriveAnswer>)
    ensures
        ({
            let now = Driving::starting().after(answers);
            let plan = now.plan;
            let rank = now.rank();
            &&& now.wf()
            &&& rank >= 2 && rank < 21 ==> planned_by(answers) == Some(plan)
            &&& in_order(now) ==> {
                &&& rank >= 2 ==> planned_by(answers) == Some(plan)
                &&& rank >= 1 ==> drive_did(answers, DriveAction::Dispatch)
                &&& rank >= 3 && plan.delivers ==> drive_did(answers, DriveAction::CheckSendable)
                &&& rank >= 4 ==> drive_did(answers, DriveAction::ResolveDevices)
                &&& rank >= 5 ==> drive_did(answers, DriveAction::BuildLocalPool)
                &&& rank >= 9 && !plan.delivers ==> drive_did(answers, DriveAction::BuildOwnedPools)
                &&& rank >= 10 ==> drive_did(answers, DriveAction::OpenStore)
                &&& rank >= 11 ==> drive_did(answers, DriveAction::Lock)
                &&& rank >= 12 ==> drive_did(answers, DriveAction::Register)
                &&& rank >= 13 && plan.routed ==> drive_did(answers, DriveAction::Bind)
                &&& rank >= 14 && plan.delivers ==> drive_did(answers, DriveAction::Ingest)
                &&& rank >= 15 ==> drive_did(answers, DriveAction::Deliver)
                &&& rank >= 16 ==> drive_did(answers, DriveAction::BuildOwnedPools)
                &&& forall|i: usize|
                    i < plan.rentals && (rank >= 6 || (now.phase matches DrivePhase::BuildProvider(
                        n,
                    ) && i < n)) ==> #[trigger] drive_did(answers, DriveAction::BuildProvider(i))
                &&& forall|i: usize|
                    i < plan.rentals && (rank >= 7 || (now.phase matches DrivePhase::BuildMode(n)
                        && i < n)) ==> #[trigger] drive_did(answers, DriveAction::BuildMode(i))
                &&& forall|i: usize|
                    i < plan.owned && (rank >= 8 || (now.phase matches DrivePhase::CheckImage(n)
                        && i < n)) ==> #[trigger] drive_did(answers, DriveAction::CheckImage(i))
                &&& forall|i: usize|
                    i < plan.rentals && (rank >= 18 || (now.phase matches DrivePhase::Acquire(n)
                        && i < n)) ==> #[trigger] drive_did(answers, DriveAction::Acquire(i))
            }
        }),
    decreases answers.len(),
{
    if answers.len() > 0 {
        let rest = answers.drop_last();
        let was = Driving::starting().after(rest);
        let now = Driving::starting().after(answers);
        lemma_in_place_so_far(rest);
        if in_order(now) {
            assert forall|i: usize|
                i < now.plan.rentals && (now.rank() >= 6 || (now.phase matches DrivePhase::BuildProvider(n)
                    && i < n)) implies #[trigger] drive_did(answers, DriveAction::BuildProvider(i)) by {
                assert(drive_did(rest, DriveAction::BuildProvider(i)) || was.act()
                    == DriveAction::BuildProvider(i));
            }
            assert forall|i: usize|
                i < now.plan.rentals && (now.rank() >= 7 || (now.phase matches DrivePhase::BuildMode(n)
                    && i < n)) implies #[trigger] drive_did(answers, DriveAction::BuildMode(i)) by {
                assert(drive_did(rest, DriveAction::BuildMode(i)) || was.act()
                    == DriveAction::BuildMode(i));
            }
            assert forall|i: usize|
                i < now.plan.owned && (now.rank() >= 8 || (now.phase matches DrivePhase::CheckImage(n)
                    && i < n)) implies #[trigger] drive_did(answers, DriveAction::CheckImage(i)) by {
                assert(drive_did(rest, DriveAction::CheckImage(i)) || was.act()
                    == DriveAction::CheckImage(i));
            }
            assert forall|i: usize|
                i < now.plan.rentals && (now.rank() >= 18 || (now.phase matches DrivePhase::Acquire(n)
                    && i < n)) implies #[trigger] drive_did(answers, DriveAction::Acquire(i)) by {
                assert(drive_did(rest, DriveAction::Acquire(i)) || was.act()
                    == DriveAction::Acquire(i));
            }
        }
    }
}

/// What a drive does, from what it did last. The checks come first, one rental
/// and one machine after another; then the store, the lock, and the
/// registration; then the program, where there is one; then the machines, one
/// rental after another; then the search. A failure before the store ends it,
/// one while the search is put on its machines asks whether the operator let
/// go, and one of letting the machines go stands behind the search's own.
pub proof fn what_a_drive_does_next(answers: Seq<DriveAnswer>)
    ensures
        ({
            let start = Driving::starting();
            let act = start.after(answers).act();
            match crate::routine::last_done(start, answers) {
                None => act == DriveAction::Dispatch,
                Some((DriveAction::Dispatch, DriveAnswer::Done)) => act == DriveAction::Plan,
                Some((DriveAction::Dispatch, _)) => act == DriveAction::Finish(DriveEnd::Raised),
                Some((DriveAction::Plan, DriveAnswer::Failed)) => act == DriveAction::Finish(
                    DriveEnd::Raised,
                ),
                Some((action, answer)) => {
                    &&& planned_by(answers) matches Some(plan)
                    &&& ({
                        let drive = DriveAction::Drive { supervised: plan.rentals > 0 };
                        let acquire = if plan.rentals > 0 {
                            DriveAction::Acquire(0)
                        } else {
                            drive
                        };
                        let checked = if plan.delivers {
                            DriveAction::OpenStore
                        } else {
                            DriveAction::BuildOwnedPools
                        };
                        let reachable = if plan.owned > 0 {
                            DriveAction::CheckImage(0)
                        } else {
                            checked
                        };
                        let bound = if plan.delivers {
                            DriveAction::Ingest
                        } else {
                            DriveAction::Deliver
                        };
                        let drove = crate::routine::answer_to(start, answers, drive) matches Some(
                            DriveAnswer::Drove { outcome: true, .. },
                        );
                        match (action, answer) {
                            (DriveAction::Plan, _) => act == if plan.delivers {
                                DriveAction::CheckSendable
                            } else {
                                DriveAction::ResolveDevices
                            },
                            (DriveAction::CheckSendable, DriveAnswer::Done) => act
                                == DriveAction::ResolveDevices,
                            (DriveAction::ResolveDevices, DriveAnswer::Done) => act
                                == DriveAction::BuildLocalPool,
                            (DriveAction::BuildLocalPool, DriveAnswer::Done) => act
                                == if plan.rentals > 0 {
                                DriveAction::BuildProvider(0)
                            } else {
                                reachable
                            },
                            (DriveAction::BuildProvider(i), DriveAnswer::Done) => act == if i + 1
                                < plan.rentals {
                                DriveAction::BuildProvider((i + 1) as usize)
                            } else {
                                DriveAction::BuildMode(0)
                            },
                            (DriveAction::BuildMode(i), DriveAnswer::Done) => act == if i + 1
                                < plan.rentals {
                                DriveAction::BuildMode((i + 1) as usize)
                            } else {
                                reachable
                            },
                            (DriveAction::CheckImage(i), DriveAnswer::Done) => act == if i + 1
                                < plan.owned {
                                DriveAction::CheckImage((i + 1) as usize)
                            } else {
                                checked
                            },
                            (DriveAction::BuildOwnedPools, DriveAnswer::Done) => act
                                == if plan.delivers {
                                acquire
                            } else {
                                DriveAction::OpenStore
                            },
                            (DriveAction::OpenStore, DriveAnswer::Done) => act == DriveAction::Lock,
                            (DriveAction::Lock, DriveAnswer::Done) => act == DriveAction::Register,
                            (DriveAction::Register, DriveAnswer::Done) => act == if plan.routed {
                                DriveAction::Bind
                            } else {
                                bound
                            },
                            (DriveAction::Bind, DriveAnswer::Done) => act == bound,
                            (DriveAction::Ingest, DriveAnswer::Done) => act == DriveAction::Deliver,
                            (DriveAction::Deliver, DriveAnswer::Done) => act == if plan.delivers {
                                DriveAction::BuildOwnedPools
                            } else {
                                acquire
                            },
                            (DriveAction::Acquire(i), DriveAnswer::Done) => act == if i + 1
                                < plan.rentals {
                                DriveAction::Acquire((i + 1) as usize)
                            } else {
                                drive
                            },
                            (_, DriveAnswer::Drove { ceiling, .. }) => act == if ceiling {
                                DriveAction::ReportCeiling
                            } else {
                                DriveAction::Release
                            },
                            (DriveAction::ReportCeiling, DriveAnswer::Done) => act
                                == DriveAction::Release,
                            (DriveAction::Release, DriveAnswer::Done) => act == DriveAction::Finish(
                                if drove {
                                    DriveEnd::Outcome
                                } else {
                                    DriveEnd::DriveFailed
                                },
                            ),
                            (DriveAction::Release, _) => act == DriveAction::Finish(
                                if drove {
                                    DriveEnd::TeardownFailed
                                } else {
                                    DriveEnd::DriveFailed
                                },
                            ),
                            (_, DriveAnswer::Interrupted(interrupted)) => act
                                == DriveAction::Finish(
                                if interrupted {
                                    DriveEnd::Interrupted
                                } else {
                                    DriveEnd::Raised
                                },
                            ),
                            (DriveAction::Deliver, _) => act == DriveAction::ReadInterrupt,
                            (DriveAction::Acquire(_), _) => act == DriveAction::ReadInterrupt,
                            (DriveAction::BuildOwnedPools, _) => act == if plan.delivers {
                                DriveAction::ReadInterrupt
                            } else {
                                DriveAction::Finish(DriveEnd::Raised)
                            },
                            (_, DriveAnswer::Failed) => act == DriveAction::Finish(
                                DriveEnd::Raised,
                            ),
                            _ => false,
                        }
                    })
                },
            }
        }),
    decreases answers.len(),
{
    if answers.len() > 0 {
        let start = Driving::starting();
        let rest = answers.drop_last();
        let was = start.after(rest);
        lemma_planned_so_far(rest);
        lemma_planned_so_far(answers);
        lemma_drove_so_far(rest);
        if Driving::can_answer(was.act(), answers.last()) {
            assert(crate::routine::last_done(start, answers) == Some((was.act(), answers.last())));
        } else {
            what_a_drive_does_next(rest);
            assert(start.after(answers) == was);
            assert(crate::routine::last_done(start, answers) == crate::routine::last_done(
                start,
                rest,
            ));
        }
    }
}

proof fn lemma_planned_so_far(answers: Seq<DriveAnswer>)
    ensures
        ({
            let now = Driving::starting().after(answers);
            &&& now.wf()
            &&& 2 <= now.rank() < 21 ==> planned_by(answers) == Some(now.plan)
            &&& now.rank() < 2 ==> planned_by(answers) is None
        }),
    decreases answers.len(),
{
    if answers.len() > 0 {
        lemma_planned_so_far(answers.drop_last());
    }
}

proof fn lemma_drove_so_far(answers: Seq<DriveAnswer>)
    ensures
        ({
            let now = Driving::starting().after(answers);
            let drove = crate::routine::answer_to(
                Driving::starting(),
                answers,
                DriveAction::Drive { supervised: now.plan.rentals > 0 },
            );
            &&& now.phase matches DrivePhase::ReportCeiling { drove: outcome } ==> (drove matches Some(
                DriveAnswer::Drove { outcome: o, .. },
            ) && o == outcome)
            &&& now.phase matches DrivePhase::Release { drove: outcome } ==> (drove matches Some(
                DriveAnswer::Drove { outcome: o, .. },
            ) && o == outcome)
        }),
    decreases answers.len(),
{
    if answers.len() > 0 {
        lemma_drove_so_far(answers.drop_last());
    }
}

/// How a driven search ends: with its own outcome only where the drive came to
/// one and every machine was let go of; with the drive's failure where it came to
/// none, whatever letting go came to; and with a failed teardown only where the
/// drive came to an outcome. Letting go was called for and answered in each case,
/// after the ceiling was recorded where it ended the search.
pub proof fn how_a_driven_search_ends(answers: Seq<DriveAnswer>)
    ensures
        ({
            let start = Driving::starting();
            let act = start.after(answers).act();
            let released = crate::routine::answer_to(start, answers, DriveAction::Release);
            (act == DriveAction::Finish(DriveEnd::Outcome) || act == DriveAction::Finish(
                DriveEnd::DriveFailed,
            ) || act == DriveAction::Finish(DriveEnd::TeardownFailed)) ==> {
                &&& planned_by(answers) matches Some(plan)
                &&& crate::routine::answer_to(
                    start,
                    answers,
                    DriveAction::Drive { supervised: plan.rentals > 0 },
                ) matches Some(DriveAnswer::Drove { outcome, ceiling })
                &&& released == Some(DriveAnswer::Done) || released == Some(DriveAnswer::Failed)
                &&& act == DriveAction::Finish(
                    if !outcome {
                        DriveEnd::DriveFailed
                    } else if released == Some(DriveAnswer::Done) {
                        DriveEnd::Outcome
                    } else {
                        DriveEnd::TeardownFailed
                    },
                )
                &&& ceiling ==> drive_did(answers, DriveAction::ReportCeiling)
            }
        }),
{
    lemma_ended_so_far(answers);
}

proof fn lemma_ended_so_far(answers: Seq<DriveAnswer>)
    ensures
        ({
            let start = Driving::starting();
            let now = start.after(answers);
            let drove = crate::routine::answer_to(
                start,
                answers,
                DriveAction::Drive { supervised: now.plan.rentals > 0 },
            );
            let released = crate::routine::answer_to(start, answers, DriveAction::Release);
            &&& now.phase matches DrivePhase::ReportCeiling { drove: o } ==> (drove matches Some(
                DriveAnswer::Drove { outcome, .. },
            ) && outcome == o)
            &&& now.phase matches DrivePhase::Release { drove: o } ==> {
                &&& drove matches Some(DriveAnswer::Drove { outcome, ceiling })
                &&& outcome == o
                &&& ceiling ==> drive_did(answers, DriveAction::ReportCeiling)
            }
            &&& now.phase is Over && now.phase != DrivePhase::Over(DriveEnd::Raised) && now.phase
                != DrivePhase::Over(DriveEnd::Interrupted) ==> {
                &&& planned_by(answers) == Some(now.plan)
                &&& drove matches Some(DriveAnswer::Drove { outcome, ceiling })
                &&& released == Some(DriveAnswer::Done) || released == Some(DriveAnswer::Failed)
                &&& now.phase == DrivePhase::Over(
                    if !outcome {
                        DriveEnd::DriveFailed
                    } else if released == Some(DriveAnswer::Done) {
                        DriveEnd::Outcome
                    } else {
                        DriveEnd::TeardownFailed
                    },
                )
                &&& ceiling ==> drive_did(answers, DriveAction::ReportCeiling)
            }
        }),
    decreases answers.len(),
{
    if answers.len() > 0 {
        lemma_ended_so_far(answers.drop_last());
        lemma_planned_so_far(answers.drop_last());
        lemma_planned_so_far(answers);
    }
}

} // verus!
