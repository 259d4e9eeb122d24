use sima_pipeline::config::FillPolicy;
use sima_pipeline::devices::{derived_slots, DeviceBinding, DeviceInfo, DeviceType};
use sima_pipeline::events::{budget_exhausted, Event, Exhaustion, Level};
use sima_pipeline::fault::Fault;
use sima_pipeline::rental::acquire::{
    acquire_hosts, acquire_one, acquired_nothing, concluded, exclude, interrupted, members,
    release_all, said, taken, AcquireAction, AcquireAnswer, AcquireEnd, Acquiring, FillVerdict,
    Gathered, IncidentKind, Offer, Rental, PROBE_ACQUIRE_ATTEMPTS,
};

fn device(class: &str, name: &str, device_type: DeviceType) -> DeviceInfo {
    DeviceInfo {
        class: class.to_string(),
        name: name.to_string(),
        device_type,
        member: 0,
    }
}

fn bound(class: &str) -> Option<DeviceBinding> {
    Some(DeviceBinding {
        class: class.to_string(),
        member: 0,
    })
}

fn two_gpus() -> Vec<DeviceInfo> {
    vec![
        device("10de:2684", "NVIDIA GeForce RTX 4090", DeviceType::Discrete),
        device("8086:7d51", "Intel(R) Graphics", DeviceType::Integrated),
    ]
}

fn rasterizer() -> DeviceInfo {
    device("10005:0000", "llvmpipe (LLVM 19)", DeviceType::Cpu)
}

#[test]
fn acquire_a_machine_with_no_device_gets_one_deviceless_slot() {
    assert_eq!(derived_slots(&vec![]), vec![None]);
}

#[test]
fn rental_a_machine_with_no_device_gets_one_deviceless_slot() {
    assert_eq!(derived_slots(&vec![]), vec![None]);
}

#[test]
fn acquire_every_gpu_gets_a_slot_bound_to_it() {
    let slots = derived_slots(&two_gpus());
    assert_eq!(slots.len(), 2);
    assert_eq!(slots[0], bound("10de:2684"));
    assert_eq!(slots[1], bound("8086:7d51"));
}

#[test]
fn rental_every_gpu_gets_a_slot_bound_to_it() {
    assert_eq!(
        derived_slots(&two_gpus()),
        vec![bound("10de:2684"), bound("8086:7d51")]
    );
}

#[test]
fn acquire_a_software_rasterizer_beside_a_gpu_gets_no_slot() {
    let slots = derived_slots(&vec![rasterizer(), two_gpus().remove(0)]);
    assert_eq!(slots.len(), 1, "one slot, on the GPU");
    assert_eq!(slots[0], bound("10de:2684"));
}

#[test]
fn rental_a_software_rasterizer_beside_a_gpu_gets_no_slot() {
    assert_eq!(
        derived_slots(&vec![rasterizer(), two_gpus().remove(0)]),
        vec![bound("10de:2684")]
    );
}

#[test]
fn acquire_a_machine_with_only_a_rasterizer_still_gets_a_slot() {
    let slots = derived_slots(&vec![rasterizer()]);
    assert_eq!(slots.len(), 1);
    assert_eq!(slots[0], bound("10005:0000"));
}

#[test]
fn rental_a_machine_with_only_a_rasterizer_still_gets_a_slot() {
    assert_eq!(
        derived_slots(&vec![rasterizer()]),
        vec![bound("10005:0000")]
    );
}

// ---- A marketplace ----

#[derive(Clone, Copy, PartialEq, Eq)]
enum Behaviour {
    Answers,
    RefusesItsProbe,
    NeverReady,
    CannotInstall,
}

/// A control plane in memory: its offers, and what became of them.
struct Market {
    offers: Vec<(&'static str, Behaviour)>,
    taken: Vec<&'static str>,
    live: Vec<&'static str>,
    destroyed: Vec<&'static str>,
    incidents: Vec<(String, IncidentKind)>,
    interrupt: bool,
    /// How many probes fit before a machine's deadline.
    probes: usize,
}

fn market(offers: Vec<(&'static str, Behaviour)>) -> Market {
    Market {
        offers,
        taken: Vec::new(),
        live: Vec::new(),
        destroyed: Vec::new(),
        incidents: Vec::new(),
        interrupt: false,
        probes: 3,
    }
}

impl Market {
    /// Acquires one machine, as a member of a rental does.
    fn acquire(&mut self, delivered: bool) -> Result<&'static str, Fault> {
        let mut at = Acquiring::begin(delivered);
        let mut excluded: Vec<String> = Vec::new();
        let mut held: Option<(&'static str, Behaviour)> = None;
        let mut refused: usize = 0;
        loop {
            let answer = match at.action() {
                AcquireAction::Rent => {
                    refused = 0;
                    let next = self.offers.iter().copied().find(|(machine, _)| {
                        !self.taken.contains(machine) && !excluded.contains(&machine.to_string())
                    });
                    match next {
                        None => AcquireAnswer::Failed,
                        Some((machine, Behaviour::NeverReady)) => {
                            self.taken.push(machine);
                            self.destroyed.push(machine);
                            AcquireAnswer::Failed
                        }
                        Some(offer) => {
                            self.taken.push(offer.0);
                            self.live.push(offer.0);
                            held = Some(offer);
                            AcquireAnswer::Done
                        }
                    }
                }
                AcquireAction::Probe => {
                    if held.expect("a machine").1 == Behaviour::RefusesItsProbe {
                        refused += 1;
                        AcquireAnswer::Failed
                    } else {
                        AcquireAnswer::Done
                    }
                }
                AcquireAction::ReadClock => AcquireAnswer::Past(refused >= self.probes),
                AcquireAction::ReadInterrupt => AcquireAnswer::Interrupted(self.interrupt),
                AcquireAction::Sleep => AcquireAnswer::Done,
                AcquireAction::Install => {
                    if held.expect("a machine").1 == Behaviour::CannotInstall {
                        AcquireAnswer::Failed
                    } else {
                        AcquireAnswer::Done
                    }
                }
                AcquireAction::Enumerate | AcquireAction::Spawn => AcquireAnswer::Done,
                AcquireAction::Record(kind) => {
                    let (machine, _) = held.take().expect("a machine");
                    self.incidents.push((machine.to_string(), kind));
                    exclude(&mut excluded, machine);
                    self.destroy(machine);
                    AcquireAnswer::Done
                }
                AcquireAction::Finish(end) => {
                    return match end {
                        AcquireEnd::Acquired => Ok(held.expect("a machine").0),
                        AcquireEnd::Interrupted => {
                            self.destroy(held.expect("a machine").0);
                            Err(interrupted())
                        }
                        AcquireEnd::Refused | AcquireEnd::Raised => {
                            Err(Fault::Provider("no machine".to_string()))
                        }
                    };
                }
            };
            at = acquire_one(at, answer);
        }
    }

    fn destroy(&mut self, machine: &'static str) {
        self.live.retain(|live| *live != machine);
        self.destroyed.push(machine);
    }

    fn release(&mut self, hosts: &[&'static str]) {
        for host in hosts {
            self.destroy(host);
        }
    }

    /// Acquires a rental's machines, and answers them and what was said.
    fn rent(
        &mut self,
        count: usize,
        fill: FillPolicy,
    ) -> (Result<Vec<&'static str>, Fault>, Vec<Event>) {
        let rental = Rental {
            name: "rented".to_string(),
            count,
            fill,
        };
        let mut attempts = Vec::new();
        for _ in 0..count {
            attempts.push(self.acquire(false));
        }
        let gathered = acquire_hosts(fill, attempts, self.interrupt);
        let short: Vec<(usize, String)> = gathered
            .short
            .iter()
            .map(|(index, error)| (*index, error.message().to_string()))
            .collect();
        let events = said(&rental, gathered.hosts.len(), &short, gathered.verdict);
        let hosts = gathered.hosts.clone();
        let answer = concluded(gathered, interrupted(), acquired_nothing("rented"));
        if answer.is_err() {
            self.release(&hosts);
        }
        (answer, events)
    }
}

fn warnings(said: &[Event]) -> Vec<&str> {
    said.iter()
        .filter_map(|event| match event {
            Event::Diagnostic {
                level: Level::Warn,
                message,
                ..
            } => Some(message.as_str()),
            _ => None,
        })
        .collect()
}

fn gathered(
    verdict: FillVerdict,
    hosts: Vec<&'static str>,
    short: Vec<(usize, &'static str)>,
) -> Gathered<&'static str, &'static str> {
    Gathered { hosts, short, verdict }
}

#[test]
fn a_rental_is_concluded_by_its_verdict() {
    let short = vec![(1, "second"), (3, "fourth")];
    let conclude = |verdict, hosts, short| {
        concluded(gathered(verdict, hosts, short), "let go", "nothing")
    };
    assert_eq!(
        conclude(FillVerdict::Proceed, vec!["a", "b"], short.clone()),
        Ok(vec!["a", "b"])
    );
    assert_eq!(conclude(FillVerdict::Empty, vec![], short.clone()), Err("nothing"));
    assert_eq!(
        conclude(FillVerdict::Fail, vec!["a"], short.clone()),
        Err("second"),
        "the lowest member's failure"
    );
    assert_eq!(conclude(FillVerdict::Abandon, vec!["a"], short), Err("second"));
    assert_eq!(
        conclude(FillVerdict::Abandon, vec!["a"], vec![]),
        Err("let go"),
        "letting go without a failure"
    );
}

#[test]
fn a_rental_says_what_became_of_each_member() {
    let rental = Rental {
        name: "rented".to_string(),
        count: 3,
        fill: FillPolicy::BestEffort,
    };
    let short = vec![(0, "no offer".to_string()), (2, "no answer".to_string())];
    assert_eq!(
        said(&rental, 1, &short, FillVerdict::Abandon),
        [Event::AcquisitionAbandoned { released: 1 }],
        "what was let go of says no more"
    );
    let warnings: Vec<Event> = said(&rental, 1, &short, FillVerdict::Proceed);
    let messages: Vec<String> = warnings
        .iter()
        .map(|event| match event {
            Event::Diagnostic {
                level: Level::Warn,
                source,
                message,
                host: None,
            } if source == "rental" => message.clone(),
            other => panic!("expected a warning, got {other:?}"),
        })
        .collect();
    let names = members(&rental);
    assert_eq!(
        messages,
        [
            format!(
                "{} could not be brought up: no offer; \"rented\" states best-effort fill, so the search goes on with the 1 machine(s) that came up",
                names[0]
            ),
            format!(
                "{} could not be brought up: no answer; \"rented\" states best-effort fill, so the search goes on with the 1 machine(s) that came up",
                names[2]
            ),
        ]
    );
    assert!(said(&rental, 3, &vec![], FillVerdict::Proceed).is_empty());
}

#[test]
fn acquire_a_strict_shortfall_tears_down_what_was_acquired_and_fails() {
    let mut market = market(vec![("a", Behaviour::Answers)]);
    let (result, _) = market.rent(2, FillPolicy::Strict);
    assert!(matches!(result, Err(Fault::Provider(_))));
    assert_eq!(market.destroyed.len(), 1, "the acquired machine is torn down");
    assert!(market.live.is_empty(), "no machine is left running");
}

#[test]
fn rental_a_strict_shortfall_tears_down_what_was_acquired_and_fails() {
    let mut market = market(vec![("a", Behaviour::Answers)]);
    let (result, _) = market.rent(2, FillPolicy::Strict);
    assert!(matches!(result, Err(Fault::Provider(_))));
    assert_eq!(market.destroyed, vec!["a"]);
    assert!(market.live.is_empty());
}

#[test]
fn acquire_a_best_effort_shortfall_proceeds_with_what_came_up() {
    let mut market = market(vec![("a", Behaviour::Answers)]);
    let (result, _) = market.rent(2, FillPolicy::BestEffort);
    let hosts = result.expect("best-effort goes on");
    assert_eq!(hosts.len(), 1, "best-effort searches on what came up");
    assert!(market.destroyed.is_empty(), "still running before release");
    market.release(&hosts);
    assert_eq!(market.destroyed.len(), 1);
    assert!(market.live.is_empty());
}

#[test]
fn rental_a_best_effort_shortfall_proceeds_with_what_came_up() {
    let mut market = market(vec![("a", Behaviour::Answers)]);
    let (result, _) = market.rent(2, FillPolicy::BestEffort);
    assert_eq!(result, Ok(vec!["a"]));
    assert_eq!(market.live, vec!["a"]);
}

#[test]
fn a_strict_shortfall_names_the_member_and_says_the_run_stops() {
    let mut market = market(vec![("a", Behaviour::Answers)]);
    let (result, said) = market.rent(2, FillPolicy::Strict);
    assert!(matches!(result, Err(Fault::Provider(_))));
    let warnings = warnings(&said);
    let [warning] = warnings.as_slice() else {
        panic!("one shortfall, one warning: {warnings:?}");
    };
    assert!(warning.starts_with("rented[1] "), "names the member: {warning}");
    assert!(
        warning.contains("strict fill") && warning.contains("the search stops"),
        "states what follows from it: {warning}"
    );
}

#[test]
fn a_best_effort_shortfall_names_the_member_and_says_the_run_goes_on() {
    let mut market = market(vec![("a", Behaviour::Answers)]);
    let (_, said) = market.rent(2, FillPolicy::BestEffort);
    let warnings = warnings(&said);
    let [warning] = warnings.as_slice() else {
        panic!("one shortfall, one warning: {warnings:?}");
    };
    assert!(warning.starts_with("rented[1] "), "names the member: {warning}");
    assert!(
        warning.ends_with(
            "; \"rented\" states best-effort fill, so the search goes on with the 1 machine(s) \
             that came up"
        ),
        "states what the search does instead: {warning}"
    );
}

#[test]
fn every_machine_a_fleet_takes_says_it_is_waiting_for_it() {
    let offer = Offer {
        machine: "machine-a".to_string(),
        gpu_model: "stub-gpu".to_string(),
        gpu_count: 2,
        price: 100_000,
    };
    assert_eq!(
        taken("rented[0]", 600_000, &offer),
        vec![
            Event::Renting {
                member: "rented[0]".to_string(),
                machine: "machine-a".to_string(),
                gpu_model: "stub-gpu".to_string(),
                gpu_count: 2,
                rate_microusd_hour: 100_000,
            },
            Event::AwaitingMachine {
                member: "rented[0]".to_string(),
                timeout_ms: 600_000,
            },
        ]
    );
    let rental = Rental {
        name: "rented".to_string(),
        count: 2,
        fill: FillPolicy::Strict,
    };
    assert_eq!(members(&rental), ["rented[0]", "rented[1]"]);
}

#[test]
fn acquire_a_rental_acquires_and_probes_every_machine() {
    let mut market = market(vec![("a", Behaviour::Answers), ("b", Behaviour::Answers)]);
    let (result, said) = market.rent(2, FillPolicy::Strict);
    let hosts = result.expect("both come up");
    assert_eq!(hosts, ["a", "b"]);
    assert!(said.is_empty());
    market.release(&hosts);
    assert_eq!(market.destroyed.len(), 2);
    assert!(market.live.is_empty());
}

#[test]
fn rental_a_rental_acquires_and_probes_every_machine() {
    let mut market = market(vec![("a", Behaviour::Answers), ("b", Behaviour::Answers)]);
    assert_eq!(market.rent(2, FillPolicy::Strict).0, Ok(vec!["a", "b"]));
}

#[test]
fn acquire_a_probe_failure_tears_the_machine_down() {
    let mut market = market(vec![("machine-a", Behaviour::RefusesItsProbe)]);
    let (result, _) = market.rent(1, FillPolicy::Strict);
    assert!(result.is_err(), "a probe failure fails the acquisition");
    assert_eq!(market.destroyed.len(), 1, "the machine is torn down");
    assert!(market.live.is_empty());
    assert_eq!(
        market.incidents,
        vec![("machine-a".to_string(), IncidentKind::ProbeFailed)]
    );
}

#[test]
fn rental_a_probe_failure_tears_the_machine_down() {
    let mut market = market(vec![("machine-a", Behaviour::RefusesItsProbe)]);
    assert!(market.rent(1, FillPolicy::Strict).0.is_err());
    assert_eq!(market.destroyed, vec!["machine-a"]);
    assert_eq!(market.incidents.len(), 1);
}

#[test]
fn acquire_a_machine_that_refuses_its_probe_costs_a_machine_not_the_acquisition() {
    let mut market = market(vec![
        ("machine-a", Behaviour::RefusesItsProbe),
        ("machine-b", Behaviour::RefusesItsProbe),
    ]);
    let (result, _) = market.rent(1, FillPolicy::Strict);
    assert!(result.is_err(), "no machine in the market could be probed");
    assert_eq!(market.destroyed.len(), 2, "each attempt is torn down");
    assert!(market.live.is_empty());
    let machines: Vec<&str> = market
        .incidents
        .iter()
        .map(|(machine, _)| machine.as_str())
        .collect();
    assert_eq!(machines, vec!["machine-a", "machine-b"]);
}

#[test]
fn rental_a_machine_that_refuses_its_probe_costs_a_machine_not_the_acquisition() {
    let mut market = market(vec![
        ("machine-a", Behaviour::RefusesItsProbe),
        ("machine-b", Behaviour::Answers),
    ]);
    assert_eq!(market.rent(1, FillPolicy::Strict).0, Ok(vec!["machine-b"]));
    assert_eq!(market.destroyed, vec!["machine-a"]);
}

#[test]
fn a_member_tries_so_many_machines_and_no_more() {
    let mut market = market(vec![
        ("a", Behaviour::RefusesItsProbe),
        ("b", Behaviour::RefusesItsProbe),
        ("c", Behaviour::RefusesItsProbe),
        ("d", Behaviour::RefusesItsProbe),
        ("e", Behaviour::Answers),
    ]);
    assert!(market.acquire(false).is_err());
    assert_eq!(market.taken.len(), PROBE_ACQUIRE_ATTEMPTS as usize);
    assert_eq!(market.incidents.len(), 4);
}

#[test]
fn a_machine_that_cannot_install_the_program_is_held_to_it() {
    let mut market = market(vec![
        ("a", Behaviour::CannotInstall),
        ("b", Behaviour::Answers),
    ]);
    assert_eq!(market.acquire(true), Ok("b"));
    assert_eq!(
        market.incidents,
        vec![("a".to_string(), IncidentKind::InstallFailed)]
    );
}

#[test]
fn a_member_whose_machine_spends_the_ready_wait_rents_nothing_further() {
    let mut market = market(vec![
        ("a", Behaviour::NeverReady),
        ("b", Behaviour::Answers),
    ]);
    let (result, _) = market.rent(1, FillPolicy::Strict);
    assert!(matches!(result, Err(Fault::Provider(_))));
    assert_eq!(market.destroyed, vec!["a"]);
    assert_eq!(market.taken, vec!["a"], "the second offer was never taken");
    assert!(market.live.is_empty());
}

#[test]
fn an_interrupt_releases_the_machines_the_acquisition_had_and_says_so() {
    for fill in [FillPolicy::Strict, FillPolicy::BestEffort] {
        let mut market = market(vec![
            ("a", Behaviour::Answers),
            ("b", Behaviour::NeverReady),
        ]);
        market.interrupt = true;
        let (result, said) = market.rent(2, fill);
        assert!(result.is_err(), "the acquisition surfaces the interrupt");
        assert_eq!(said, vec![Event::AcquisitionAbandoned { released: 1 }]);
        assert!(warnings(&said).is_empty(), "nothing fell short");
        assert!(market.live.is_empty());
        assert_eq!(market.destroyed.len(), 2);
    }
}

#[test]
fn an_interrupt_in_the_boot_wait_ends_the_acquisition_rather_than_waiting_it_out() {
    let mut market = market(vec![("a", Behaviour::NeverReady)]);
    market.interrupt = true;
    let (result, _) = market.rent(1, FillPolicy::Strict);
    assert!(result.is_err(), "the acquisition ends with no machine");
    assert!(market.live.is_empty());
    assert!(market.incidents.is_empty());
}

#[test]
fn an_interrupt_in_the_probe_holds_nothing_against_the_machine() {
    let mut market = market(vec![
        ("a", Behaviour::RefusesItsProbe),
        ("b", Behaviour::RefusesItsProbe),
    ]);
    market.interrupt = true;
    let (result, _) = market.rent(1, FillPolicy::Strict);
    assert_eq!(
        result,
        Err(Fault::Provider(
            "the acquisition was interrupted".to_string()
        ))
    );
    assert!(market.incidents.is_empty());
    assert_eq!(market.destroyed, vec!["a"], "and no other rented after it");
    assert!(market.live.is_empty());
}

#[test]
fn a_rental_with_nothing_to_go_on_with_says_so() {
    let mut market = market(vec![]);
    assert_eq!(
        market.rent(2, FillPolicy::BestEffort).0,
        Err(Fault::Provider(
            "the rental \"rented\" acquired no machine".to_string()
        ))
    );
}

#[test]
fn a_machine_without_an_identity_cannot_be_excluded() {
    let mut excluded = vec![];
    exclude(&mut excluded, "");
    assert!(excluded.is_empty());
    exclude(&mut excluded, "a");
    assert_eq!(excluded, ["a"]);
}

#[test]
fn a_teardown_reports_its_first_failure() {
    let none: Vec<Result<(), &str>> = vec![Ok(()), Ok(())];
    assert_eq!(release_all(none), Ok(()));
    assert_eq!(
        release_all(vec![Ok(()), Err("first"), Err("second")]),
        Err("first")
    );
}

#[test]
fn an_exhaustion_is_said_by_its_cause() {
    assert_eq!(
        budget_exhausted(Exhaustion::Spend {
            accrued: 7,
            cap: 5
        }),
        Event::BudgetSpendExhausted {
            accrued_microusd: 7,
            cap_microusd: 5
        }
    );
    assert_eq!(
        budget_exhausted(Exhaustion::WallClock { deadline_ms: 9 }),
        Event::BudgetWallClockExhausted { deadline_ms: 9 }
    );
}
