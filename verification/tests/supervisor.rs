use sima_pipeline::config::FillPolicy;
use sima_pipeline::devices::DeviceBinding;
use sima_pipeline::events::{budget_exhausted, Event, Exhaustion};
use sima_pipeline::program_delivery::ProgramDelivery;
use sima_pipeline::reach::{SpawnMode, SshDestination};
use sima_pipeline::rental::rented_program::{
    DeviceProbe, DeviceSource, RentedProgram, SpawnCommand, SpawnEnvironment, SpawnPlan,
};
use sima_pipeline::rental::supervisor::{
    composition, exit_duties, instance_lost, instance_online, instance_replaced, replace,
    replacement_gpus, tick, Held, Instance, ReplaceAction, ReplaceAnswer, ReplaceEnd, Replacing,
    TickAction, TickAnswer, TickEnd, Ticking,
};

/// What a search may spend, and how long it may run.
#[derive(Clone, Copy, Default)]
struct Budget {
    max_spend: Option<u64>,
    max_wall_clock_ms: Option<u64>,
}

/// One rented machine, as its supervisor sees it.
#[derive(Clone)]
struct Host {
    fill: FillPolicy,
    /// The machine that is held; nothing once it was let go of.
    guard: Option<Instance>,
    there: bool,
    /// The host it was acquired under.
    host: String,
    /// Where its transport points; nothing once it is retired.
    target: Option<String>,
    fatal: bool,
}

/// A search's rented machines, the market they came from and its budget.
struct Fleet {
    groups: Vec<Vec<Host>>,
    /// The machines still offered, with the price of each.
    offered: Vec<(&'static str, u64)>,
    budget: Budget,
    spent: u64,
    now_ms: u64,
    interrupt: bool,
    emitter: bool,
    announced: bool,
    budget_announced: bool,
    said: Vec<Event>,
    incidents: Vec<String>,
    lost: Option<Instance>,
    new: Option<(Instance, String)>,
    rented: usize,
}

fn instance(name: &str, rate: u64) -> Instance {
    Instance {
        tag: format!("sima-run-{name}"),
        id: format!("instance-{name}"),
        gpu_model: format!("gpu-{name}"),
        gpu_count: 1,
        rate,
    }
}

fn host(name: &str) -> Host {
    Host {
        fill: FillPolicy::Strict,
        guard: Some(instance(name, 100_000)),
        there: true,
        host: format!("host-{name}"),
        target: Some(format!("host-{name}")),
        fatal: false,
    }
}

fn online(name: &str, rate: u64) -> Event {
    Event::InstanceOnline {
        tag: format!("sima-run-{name}"),
        instance: format!("instance-{name}"),
        gpu_model: format!("gpu-{name}"),
        gpu_count: 1,
        rate_microusd_hour: rate,
        host: format!("host-{name}"),
    }
}

fn fleet(groups: Vec<Vec<Host>>, offered: Vec<(&'static str, u64)>) -> Fleet {
    Fleet {
        groups,
        offered,
        budget: Budget::default(),
        spent: 0,
        now_ms: 0,
        interrupt: false,
        emitter: true,
        announced: false,
        budget_announced: false,
        said: Vec::new(),
        incidents: Vec::new(),
        lost: None,
        new: None,
        rented: 0,
    }
}

impl Fleet {
    fn host(&mut self, at: usize) -> &mut Host {
        self.groups.iter_mut().flatten().nth(at).expect("a machine")
    }

    fn emit(&mut self, event: Event) {
        if self.emitter {
            self.said.push(event);
        }
    }

    fn assess(&self) -> Option<Exhaustion> {
        if let Some(cap) = self.budget.max_spend {
            if self.spent >= cap {
                return Some(Exhaustion::Spend { accrued: self.spent, cap });
            }
        }
        if let Some(deadline_ms) = self.budget.max_wall_clock_ms {
            if self.now_ms >= deadline_ms {
                return Some(Exhaustion::WallClock { deadline_ms });
            }
        }
        None
    }

    fn wind_down(&mut self, announce: bool) {
        self.interrupt = true;
        if announce {
            let exhaustion = self.assess().expect("something is exhausted");
            self.emit(budget_exhausted(exhaustion));
        }
    }

    fn replacing(&mut self, at: usize, action: ReplaceAction) -> ReplaceAnswer {
        match action {
            ReplaceAction::TakeGuard => {
                self.lost = self.host(at).guard.take();
                return ReplaceAnswer::Took(self.lost.is_some());
            }
            ReplaceAction::EmitLost => {
                let event = instance_lost(self.lost.as_ref().expect("a lost machine"));
                self.emit(event);
            }
            ReplaceAction::RecordLost => {
                let id = self.lost.as_ref().expect("a lost machine").id.clone();
                self.incidents.push(id);
            }
            ReplaceAction::Rent => {
                if self.assess().is_some() || self.offered.is_empty() {
                    return ReplaceAnswer::Failed;
                }
                let (name, price) = self.offered.remove(0);
                self.new = Some((instance(name, price), format!("host-{name}")));
                self.rented += 1;
            }
            ReplaceAction::EmitReplacedAndOnline => {
                let (new, host) = self.new.clone().expect("a replacement");
                for event in instance_replaced(self.lost.as_ref(), &new, &host) {
                    self.emit(event);
                }
            }
            ReplaceAction::SwapTarget => {
                let (_, host) = self.new.clone().expect("a replacement");
                self.host(at).target = Some(host);
                self.host(at).there = true;
            }
            ReplaceAction::KeepGuard => {
                let (new, _) = self.new.take().expect("a replacement");
                self.host(at).guard = Some(new);
            }
            ReplaceAction::Assess => return ReplaceAnswer::Exhausted(self.assess().is_some()),
            ReplaceAction::WindDown { announce } => self.wind_down(announce),
            ReplaceAction::Retire { fatal } => {
                self.host(at).target = None;
                self.host(at).fatal = fatal;
            }
            ReplaceAction::MarkReplacing | ReplaceAction::Release => {}
            ReplaceAction::Finish(end) => panic!("the replacement is over: {end:?}"),
        }
        ReplaceAnswer::Done
    }

    fn tick(&mut self) -> TickEnd {
        let hosts = self.groups.iter().flatten().count();
        let mut at = Ticking::begin(hosts, self.announced, self.budget_announced);
        loop {
            let answer = match at.action() {
                TickAction::ReadInterrupt => TickAnswer::Interrupted(self.interrupt),
                TickAction::AskEmitter => TickAnswer::Emitter(self.emitter),
                TickAction::Announce => {
                    let groups: Vec<Vec<Held>> = self
                        .groups
                        .iter()
                        .map(|group| {
                            group
                                .iter()
                                .map(|host| Held {
                                    instance: host.guard.clone(),
                                    host: host.host.clone(),
                                })
                                .collect()
                        })
                        .collect();
                    for event in composition(&groups) {
                        self.emit(event);
                    }
                    TickAnswer::Done
                }
                TickAction::Assess => TickAnswer::Exhausted(self.assess().is_some()),
                TickAction::WindDown { announce } => {
                    self.wind_down(announce);
                    TickAnswer::Done
                }
                TickAction::AskGuard(host) => TickAnswer::Guarded(self.host(host).guard.is_some()),
                TickAction::Poll(host) => {
                    if self.host(host).there {
                        TickAnswer::Healthy
                    } else {
                        TickAnswer::Gone(self.host(host).fill)
                    }
                }
                TickAction::Replace(host, action) => {
                    TickAnswer::Replace(self.replacing(host, action))
                }
                TickAction::Finish(end) => {
                    self.announced = at.announced;
                    self.budget_announced = at.budget_announced;
                    return end;
                }
            };
            at = tick(at, answer);
        }
    }
}

fn spend_exhaustion_sets_the_interrupt() {
    let mut fleet = fleet(vec![vec![host("a")]], vec![]);
    fleet.budget.max_spend = Some(50_000);
    fleet.spent = 100_000;
    fleet.now_ms = u64::MAX;
    assert_eq!(fleet.tick(), TickEnd::WoundDown);
    assert!(fleet.interrupt, "spend exhaustion interrupts");
    assert_eq!(
        fleet.said,
        [
            online("a", 100_000),
            Event::BudgetSpendExhausted {
                accrued_microusd: 100_000,
                cap_microusd: 50_000,
            }
        ]
    );
}

#[test]
fn supervisor_budget_spend_exhaustion_sets_the_interrupt() {
    spend_exhaustion_sets_the_interrupt();
}

#[test]
fn rental_budget_spend_exhaustion_sets_the_interrupt() {
    spend_exhaustion_sets_the_interrupt();
}

fn wall_clock_exhaustion_sets_the_interrupt() {
    let mut fleet = fleet(vec![vec![host("a")]], vec![]);
    fleet.budget.max_wall_clock_ms = Some(1);
    fleet.now_ms = u64::MAX;
    assert_eq!(fleet.tick(), TickEnd::WoundDown);
    assert!(fleet.interrupt, "wall-clock exhaustion interrupts");
    assert_eq!(
        fleet.said,
        [
            online("a", 100_000),
            Event::BudgetWallClockExhausted { deadline_ms: 1 }
        ]
    );
}

#[test]
fn supervisor_wall_clock_exhaustion_sets_the_interrupt() {
    wall_clock_exhaustion_sets_the_interrupt();
}

#[test]
fn rental_wall_clock_exhaustion_sets_the_interrupt() {
    wall_clock_exhaustion_sets_the_interrupt();
}

fn a_healthy_rental() {
    let mut fleet = fleet(vec![vec![host("a")]], vec![]);
    assert_eq!(fleet.tick(), TickEnd::Ticked);
    assert!(!fleet.interrupt, "a healthy rental is not interrupted");
    assert_eq!(fleet.host(0).target.as_deref(), Some("host-a"));
    assert_eq!(fleet.host(0).guard, Some(instance("a", 100_000)), "nothing is torn down");
    assert_eq!(fleet.rented, 0, "nothing is replaced");
}

#[test]
fn supervisor_a_healthy_rental_makes_no_teardown_or_replacement() {
    a_healthy_rental();
}

#[test]
fn rental_a_healthy_rental_makes_no_teardown_or_replacement() {
    a_healthy_rental();
}

fn a_lost_machine_is_replaced() {
    let mut fleet = fleet(vec![vec![host("a")]], vec![("b", 200_000)]);
    fleet.host(0).there = false;
    assert_eq!(fleet.tick(), TickEnd::Ticked);
    assert_eq!(
        fleet.host(0).target.as_deref(),
        Some("host-b"),
        "the target swapped to the replacement"
    );
    assert_eq!(
        fleet.host(0).guard,
        Some(instance("b", 200_000)),
        "exactly one machine runs after replacement"
    );
    assert_eq!(fleet.rented, 1);
    assert_eq!(
        fleet.said,
        [
            online("a", 100_000),
            Event::InstanceLost {
                tag: "sima-run-a".to_string(),
                instance: "instance-a".to_string(),
            },
            Event::InstanceReplaced {
                tag: "sima-run-b".to_string(),
                from: "instance-a".to_string(),
                to: "instance-b".to_string(),
            },
            online("b", 200_000),
        ],
        "the replacement announces its own host, not the dead machine's"
    );
    assert_eq!(fleet.incidents, ["instance-a"]);
}

#[test]
fn supervisor_a_lost_machine_is_replaced_and_the_target_swaps() {
    a_lost_machine_is_replaced();
}

#[test]
fn rental_a_lost_machine_is_replaced_and_the_target_swaps() {
    a_lost_machine_is_replaced();
}

fn no_replacement_retires_the_transport() {
    for (fill, fatal) in [(FillPolicy::Strict, true), (FillPolicy::BestEffort, false)] {
        let mut fleet = fleet(vec![vec![host("a")]], vec![]);
        fleet.host(0).there = false;
        fleet.host(0).fill = fill;
        assert_eq!(fleet.tick(), TickEnd::Ticked);
        assert!(
            fleet.host(0).target.is_none(),
            "a transport with no replacement retires"
        );
        assert_eq!(fleet.host(0).fatal, fatal);
        assert!(!fleet.interrupt);
    }
}

#[test]
fn supervisor_a_replacement_that_cannot_be_made_retires_the_transport() {
    no_replacement_retires_the_transport();
}

#[test]
fn rental_a_replacement_that_cannot_be_made_retires_the_transport() {
    no_replacement_retires_the_transport();
}

fn a_wind_down_rents_nothing() {
    let mut fleet = fleet(vec![vec![host("a")]], vec![("b", 200_000)]);
    fleet.host(0).there = false;
    fleet.interrupt = true;
    assert_eq!(fleet.tick(), TickEnd::Idle);
    assert_eq!(fleet.rented, 0, "a wind-down tick rents nothing");
    assert_eq!(
        fleet.host(0).target.as_deref(),
        Some("host-a"),
        "the transport is left as the wind-down found it"
    );
}

#[test]
fn supervisor_a_wind_down_tick_rents_no_replacement() {
    a_wind_down_rents_nothing();
}

#[test]
fn rental_a_wind_down_tick_rents_no_replacement() {
    a_wind_down_rents_nothing();
}

fn a_refusal_for_budget_winds_down() {
    let mut fleet = fleet(vec![vec![host("a")]], vec![("b", 200_000)]);
    fleet.budget.max_spend = Some(50_000);
    fleet.spent = 120_000;
    let mut at = Replacing::begin(FillPolicy::Strict, false);
    let end = loop {
        let action = at.action();
        if let ReplaceAction::Finish(end) = action {
            break end;
        }
        let answer = fleet.replacing(0, action);
        at = replace(at, answer);
    };
    assert_eq!(end, ReplaceEnd::Retired { fatal: false });
    assert!(fleet.interrupt, "a budget-refused replacement winds the run down");
    assert!(
        fleet
            .said
            .iter()
            .any(|event| matches!(event, Event::BudgetSpendExhausted { .. })),
        "the exhaustion is announced to the journal"
    );
    assert!(fleet.host(0).target.is_none());
    assert!(!fleet.host(0).fatal);
}

#[test]
fn supervisor_a_replacement_refused_for_budget_winds_down_rather_than_faulting() {
    a_refusal_for_budget_winds_down();
}

#[test]
fn rental_a_replacement_refused_for_budget_winds_down_rather_than_faulting() {
    a_refusal_for_budget_winds_down();
}

fn one_budget_for_every_group() {
    let mut fleet = fleet(vec![vec![host("a")], vec![host("b")]], vec![]);
    fleet.budget.max_spend = Some(50_000);
    fleet.spent = 100_000;
    fleet.tick();
    fleet.tick();
    assert!(fleet.interrupt, "the ceiling stops every group at once");
    assert_eq!(
        fleet.said,
        [
            online("a", 100_000),
            online("b", 100_000),
            Event::BudgetSpendExhausted {
                accrued_microusd: 100_000,
                cap_microusd: 50_000,
            }
        ]
    );
}

#[test]
fn supervisor_every_group_is_supervised_under_the_runs_one_budget() {
    one_budget_for_every_group();
}

#[test]
fn rental_every_group_is_supervised_under_the_runs_one_budget() {
    one_budget_for_every_group();
}

fn announced_once_the_emitter_arrives() {
    let mut fleet = fleet(vec![vec![host("a")]], vec![]);
    fleet.emitter = false;
    fleet.tick();
    assert!(fleet.said.is_empty(), "not before the emitter arrives");
    fleet.emitter = true;
    fleet.tick();
    fleet.tick();
    assert_eq!(fleet.said, [online("a", 100_000)], "announced exactly once");
}

#[test]
fn supervisor_the_composition_is_announced_once_the_emitter_arrives_not_before() {
    announced_once_the_emitter_arrives();
}

#[test]
fn rental_the_composition_is_announced_once_the_emitter_arrives_not_before() {
    announced_once_the_emitter_arrives();
}

fn announced_from_the_start() {
    let mut fleet = fleet(vec![vec![host("a")]], vec![]);
    fleet.tick();
    fleet.tick();
    assert_eq!(fleet.said, [online("a", 100_000)]);
}

#[test]
fn supervisor_the_composition_is_announced_once_when_the_emitter_is_present_from_the_start() {
    announced_from_the_start();
}

#[test]
fn rental_the_composition_is_announced_once_when_the_emitter_is_present_from_the_start() {
    announced_from_the_start();
}

#[test]
fn the_composition_names_the_machines_that_are_held_group_by_group() {
    let mut let_go = host("b");
    let_go.guard = None;
    let mut fleet = fleet(
        vec![vec![host("a"), let_go], vec![], vec![host("c"), host("d")]],
        vec![],
    );
    fleet.tick();
    fleet.tick();
    assert_eq!(
        fleet.said,
        [online("a", 100_000), online("c", 100_000), online("d", 100_000)]
    );
    assert!(composition(&vec![]).is_empty());
}

#[test]
fn a_replacement_of_a_machine_already_let_go_of_names_none() {
    let new = instance("b", 7);
    assert_eq!(
        instance_replaced(None, &new, "host-b"),
        [
            Event::InstanceReplaced {
                tag: "sima-run-b".to_string(),
                from: String::new(),
                to: "instance-b".to_string(),
            },
            online("b", 7),
        ]
    );
}

#[test]
fn supervisor_a_clean_supervisor_exit_clears_the_emitter_and_leaves_transports_alive() {
    let duties = exit_duties(false);
    assert!(duties.clears_emitter);
    assert!(!duties.retires);
}

#[test]
fn rental_a_clean_supervisor_exit_clears_the_emitter_and_leaves_transports_alive() {
    let duties = exit_duties(false);
    assert!(duties.clears_emitter);
    assert!(!duties.retires);
}

#[test]
fn supervisor_a_supervisor_panic_clears_the_emitter_and_retires_the_transports() {
    let duties = exit_duties(true);
    assert!(duties.clears_emitter);
    assert!(duties.retires);
}

#[test]
fn rental_a_supervisor_panic_clears_the_emitter_and_retires_the_transports() {
    let duties = exit_duties(true);
    assert!(duties.clears_emitter);
    assert!(duties.retires);
}

#[test]
fn a_machine_already_let_go_of_is_not_polled() {
    let mut fleet = fleet(vec![vec![host("a"), host("b")]], vec![]);
    fleet.host(0).guard = None;
    fleet.host(0).there = false;
    assert_eq!(fleet.tick(), TickEnd::Ticked);
    assert!(fleet.incidents.is_empty());
}

#[test]
fn a_replacement_carries_the_cards_its_slots_bind() {
    let bound = Some(DeviceBinding {
        class: "10de:2684".to_string(),
        member: 0,
    });
    let slots = vec![bound.clone(), None, bound];
    assert_eq!(replacement_gpus(None, &slots), 2);
    assert_eq!(replacement_gpus(Some(1), &slots), 2);
    assert_eq!(replacement_gpus(Some(4), &slots), 4);
}

#[test]
fn a_machine_is_announced_under_the_host_it_answers_on() {
    let instance = Instance {
        tag: "tag".to_string(),
        id: "id".to_string(),
        gpu_model: "model".to_string(),
        gpu_count: 2,
        rate: 7,
    };
    assert_eq!(
        instance_online(&instance, "10.0.0.1"),
        Event::InstanceOnline {
            tag: "tag".to_string(),
            instance: "id".to_string(),
            gpu_model: "model".to_string(),
            gpu_count: 2,
            rate_microusd_hour: 7,
            host: "10.0.0.1".to_string(),
        }
    );
}

// ---- What a rented machine runs ----

fn delivery() -> ProgramDelivery {
    ProgramDelivery {
        payload: "d1".to_string(),
        sdk: None,
    }
}

#[test]
fn a_format_the_image_carries_needs_no_delivery() {
    let program = RentedProgram::Image;
    assert_eq!(program.readiness("stub.v1"), DeviceProbe::Format("stub.v1"));
    let target = SshDestination::known("box");
    assert_eq!(program.install(&SpawnMode::Ssh, &target), None);
    assert_eq!(program.devices(&SpawnMode::Ssh), DeviceSource::Probe);
    assert_eq!(
        program.spawn(&SpawnMode::Ssh),
        SpawnPlan {
            command: SpawnCommand::ImageWorker,
            environment: SpawnEnvironment::Inherited,
            expected: None,
        }
    );
}

#[test]
fn a_delivered_program_is_installed_asked_and_expected() {
    let delivery = delivery();
    let program = RentedProgram::Delivered {
        delivery: &delivery,
        binary: "sima",
        root: "~/sima-runs",
    };
    assert_eq!(program.readiness("acme.v1"), DeviceProbe::EveryBackend);
    let target = SshDestination::known("box");
    assert_eq!(
        program.install(&SpawnMode::Ssh, &target).expect("a command"),
        [
            "ssh",
            "-o",
            "BatchMode=yes",
            "box",
            "--",
            "sima",
            "sync-serve",
            "~/sima-runs/programs",
            "--payload",
            "d1"
        ]
    );
    let here = SpawnMode::Local("/build/sima-worker".to_string());
    assert_eq!(
        program.install(&here, &target).expect("a command"),
        ["sima", "sync-serve", "~/sima-runs/programs", "--payload", "d1"]
    );
    assert_eq!(program.devices(&SpawnMode::Ssh), DeviceSource::ProgramOverSsh);
    assert_eq!(program.devices(&here), DeviceSource::ProgramHere);
    assert_eq!(
        program.spawn(&here),
        SpawnPlan {
            command: SpawnCommand::ProgramHere,
            environment: SpawnEnvironment::Explicit,
            expected: Some("d1".to_string()),
        }
    );
    assert_eq!(
        program.spawn(&SpawnMode::Ssh).environment,
        SpawnEnvironment::Inherited
    );
}
