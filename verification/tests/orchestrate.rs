use sima_pipeline::config::{
    Container, DeviceSelector, Engagement, LoadedConfig, Orchestrator, PayloadSpec, Pool, Routed,
};
use sima_pipeline::fault::Fault;
use sima_pipeline::migrate::carried;
use sima_pipeline::orchestrate::{
    container_stem, derives_workers, drive_outcome, local_pool, orchestrate, owned_pools,
    plain_slots, plan, pool_order, resolve_devices, stops_supervisor, DevicesFrom, DriveAction,
    DriveAnswer, DriveEnd, Driven, Driving, LocalPlan, MachineProgram, OwnedPool, Plan, PoolSource, SearchNews, WorkerProgram,
};
use sima_pipeline::ordered::TextMap;

fn loaded(pool: Option<Pool>, routed: Option<Routed>) -> LoadedConfig {
    LoadedConfig {
        format: "acme.v1".to_string(),
        routed,
        orchestrator: Orchestrator {
            migrate: None,
            pool,
            container: None,
        },
        hosts: TextMap::new(),
    }
}

fn routed(digest: Option<&str>) -> Routed {
    Routed {
        binary: "/opt/acme".to_string(),
        payload: None,
        payload_digest: digest.map(str::to_string),
        env: vec!["ACME_KEY".to_string()],
        sdk: Some("/opt/sdk".to_string()),
    }
}

fn contained(mut config: LoadedConfig) -> LoadedConfig {
    config.orchestrator.container = Some(Container {
        image: "image".to_string(),
        runtime: "podman".to_string(),
        run_args: vec![],
    });
    config
}

fn tables() -> Pool {
    Pool::Devices(vec![DeviceSelector {
        select: "10de".to_string(),
        workers: 2,
    }])
}

// ---- Where a search executes ----

#[test]
fn a_layout_is_left_to_the_program_only_where_a_digest_stands_in_for_it() {
    assert!(derives_workers(&loaded(None, Some(routed(Some("d1"))))));
    assert!(!derives_workers(&loaded(None, Some(routed(None)))));
    assert!(!derives_workers(&loaded(None, None)));
    assert!(!derives_workers(&loaded(
        Some(Pool::Workers(1)),
        Some(routed(Some("d1")))
    )));
}

#[test]
fn a_search_with_nowhere_to_execute_is_refused_by_how_it_was_engaged() {
    assert_eq!(
        plan(&loaded(None, None), Engagement::Orchestrator, 3, 3),
        Err(Fault::Validation(
            "the orchestrator declares no workers and no devices, so this search has nothing to \
             execute on; give [orchestrator] a worker layout, or pass --fleet to engage the \
             machines [fleet] names"
                .to_string()
        ))
    );
    assert_eq!(
        plan(&loaded(None, None), Engagement::Fleet, 0, 0),
        Err(Fault::Validation(
            "the orchestrator declares no workers and no devices, and [fleet] names no machine, \
             so this search has nothing to execute on"
                .to_string()
        ))
    );
}

#[test]
fn a_plan_draws_in_the_fleet_only_where_it_is_engaged() {
    let config = loaded(Some(Pool::Workers(1)), Some(routed(None)));
    assert_eq!(
        plan(&config, Engagement::Orchestrator, 2, 1),
        Ok(Plan {
            owned: 0,
            rentals: 0,
            routed: true,
            delivers: false
        })
    );
    assert_eq!(
        plan(&config, Engagement::Fleet, 2, 1),
        Ok(Plan {
            owned: 2,
            rentals: 1,
            routed: true,
            delivers: true
        })
    );
    assert_eq!(
        plan(&loaded(None, None), Engagement::Fleet, 0, 1),
        Ok(Plan {
            owned: 0,
            rentals: 1,
            routed: false,
            delivers: false
        })
    );
}

#[test]
fn the_local_pool_is_what_the_orchestrator_declares() {
    assert_eq!(local_pool(&loaded(None, None)), LocalPlan::Absent);
    assert_eq!(
        local_pool(&loaded(None, Some(routed(Some("d1"))))),
        LocalPlan::Derived
    );
    let here = loaded(Some(tables()), None);
    assert_eq!(local_pool(&here), LocalPlan::Subprocesses);
    assert_eq!(resolve_devices(&here).map(Vec::len), Some(1));
    let contained = contained(here);
    assert_eq!(local_pool(&contained), LocalPlan::Container);
    assert_eq!(resolve_devices(&contained), None);
    assert_eq!(
        resolve_devices(&loaded(Some(Pool::Workers(2)), None)),
        None
    );
    assert_eq!(
        resolve_devices(&loaded(Some(Pool::Devices(vec![])), None)),
        None
    );
}

#[test]
fn plain_workers_take_slots_bound_to_nothing() {
    assert_eq!(
        plain_slots(&Pool::Workers(3)),
        Some(vec![None, None, None])
    );
    assert_eq!(plain_slots(&tables()), None);
}

#[test]
fn a_container_stem_names_the_search_and_the_pool() {
    let search = "deadbeefdeadbeefdeadbeef";
    assert_eq!(container_stem(search, 0), "sima-w-deadbeefdead-0");
    assert_eq!(container_stem(search, 12), "sima-w-deadbeefdead-12");
    assert_eq!(container_stem("ab", 1), "sima-w-ab-1");
}

#[test]
fn a_pool_runs_and_answers_what_was_put_on_its_machine() {
    let program = WorkerProgram::of(&loaded(None, Some(routed(Some("local")))));
    assert_eq!(program.digest.as_deref(), Some("local"));
    let roots = vec!["/a".to_string(), "/b".to_string()];
    assert_eq!(
        owned_pools(&roots, &program, None),
        vec![
            OwnedPool {
                index: 1,
                machine: MachineProgram::Image,
                program: program.clone()
            },
            OwnedPool {
                index: 2,
                machine: MachineProgram::Image,
                program: program.clone()
            },
        ]
    );
    let delivered = owned_pools(&roots, &program, Some("sent"));
    assert_eq!(
        delivered[1],
        OwnedPool {
            index: 2,
            machine: MachineProgram::Delivered {
                root: "/b".to_string()
            },
            program: WorkerProgram {
                format: "acme.v1".to_string(),
                digest: Some("sent".to_string())
            },
        }
    );
    assert_eq!(
        delivered[1].machine.devices(),
        DevicesFrom::DeliveredProgram
    );
    assert_eq!(MachineProgram::Image.devices(), DevicesFrom::ImageWorker);
}

#[test]
fn workers_are_numbered_local_then_owned_then_rented() {
    assert_eq!(
        pool_order(true, 2, 1),
        vec![
            PoolSource::Local,
            PoolSource::Owned(0),
            PoolSource::Owned(1),
            PoolSource::Rented(0)
        ]
    );
    assert_eq!(pool_order(false, 0, 1), vec![PoolSource::Rented(0)]);
}

#[test]
fn only_the_end_of_the_search_stops_the_supervisor() {
    for news in [
        SearchNews::Finalized,
        SearchNews::Failed,
        SearchNews::Interrupted,
        SearchNews::Faulted,
    ] {
        assert!(stops_supervisor(news));
    }
    assert!(!stops_supervisor(SearchNews::Other));
}

// ---- The whole ----

/// Drives a search, failing at `fails`, and answers what was done on the way.
fn drive(
    planned: Plan,
    fails: Option<DriveAction>,
    interrupted: bool,
    drove: (bool, bool),
) -> (Vec<DriveAction>, DriveEnd) {
    let mut at = Driving::begin();
    let mut done = Vec::new();
    loop {
        let action = at.action();
        if let DriveAction::Finish(end) = action {
            return (done, end);
        }
        done.push(action);
        let answer = if Some(action) == fails {
            DriveAnswer::Failed
        } else {
            match action {
                DriveAction::Plan => DriveAnswer::Planned(planned),
                DriveAction::ReadInterrupt => DriveAnswer::Interrupted(interrupted),
                DriveAction::Drive { .. } => DriveAnswer::Drove {
                    outcome: drove.0,
                    ceiling: drove.1,
                },
                _ => DriveAnswer::Done,
            }
        };
        at = orchestrate(at, answer);
    }
}

fn delivering() -> Plan {
    Plan {
        owned: 1,
        rentals: 2,
        routed: true,
        delivers: true,
    }
}

#[test]
fn a_search_that_delivers_goes_through_all_of_it_in_order() {
    let (done, end) = drive(delivering(), None, false, (true, false));
    assert_eq!(end, DriveEnd::Outcome);
    assert_eq!(
        done,
        vec![
            DriveAction::Dispatch,
            DriveAction::Plan,
            DriveAction::CheckSendable,
            DriveAction::ResolveDevices,
            DriveAction::BuildLocalPool,
            DriveAction::BuildProvider(0),
            DriveAction::BuildProvider(1),
            DriveAction::BuildMode(0),
            DriveAction::BuildMode(1),
            DriveAction::CheckImage(0),
            DriveAction::OpenStore,
            DriveAction::Lock,
            DriveAction::Register,
            DriveAction::Bind,
            DriveAction::Ingest,
            DriveAction::Deliver,
            DriveAction::BuildOwnedPools,
            DriveAction::Acquire(0),
            DriveAction::Acquire(1),
            DriveAction::Drive { supervised: true },
            DriveAction::Release,
        ]
    );
}

#[test]
fn a_search_on_this_machine_alone_is_driven_without_a_supervisor() {
    let alone = Plan {
        owned: 0,
        rentals: 0,
        routed: false,
        delivers: false,
    };
    let (done, end) = drive(alone, None, false, (true, true));
    assert_eq!(end, DriveEnd::Outcome);
    assert!(done.contains(&DriveAction::Drive { supervised: false }));
    assert!(done.contains(&DriveAction::ReportCeiling));
    assert!(!done.contains(&DriveAction::Bind));
    assert!(!done.contains(&DriveAction::CheckSendable));
}

#[test]
fn a_refusal_before_the_store_leaves_nothing_behind() {
    for fails in [
        DriveAction::Dispatch,
        DriveAction::Plan,
        DriveAction::CheckSendable,
        DriveAction::ResolveDevices,
        DriveAction::BuildLocalPool,
        DriveAction::BuildProvider(1),
        DriveAction::BuildMode(0),
        DriveAction::CheckImage(0),
    ] {
        let (done, end) = drive(delivering(), Some(fails), true, (true, false));
        assert_eq!(end, DriveEnd::Raised);
        assert_eq!(done.last(), Some(&fails));
        assert!(!done.contains(&DriveAction::OpenStore));
    }
}

#[test]
fn a_failure_while_machines_are_put_to_work_is_an_interrupt_where_one_was_raised() {
    for fails in [
        DriveAction::Deliver,
        DriveAction::BuildOwnedPools,
        DriveAction::Acquire(1),
    ] {
        let (done, end) = drive(delivering(), Some(fails), true, (true, false));
        assert_eq!(end, DriveEnd::Interrupted);
        assert!(!done.contains(&DriveAction::Drive { supervised: true }));
        let (_, end) = drive(delivering(), Some(fails), false, (true, false));
        assert_eq!(end, DriveEnd::Raised);
    }
}

#[test]
fn a_failed_drive_stands_before_a_failed_teardown() {
    let teardown = Some(DriveAction::Release);
    assert_eq!(
        drive(delivering(), teardown, false, (true, false)).1,
        DriveEnd::TeardownFailed
    );
    assert_eq!(
        drive(delivering(), teardown, false, (false, false)).1,
        DriveEnd::DriveFailed
    );
    assert_eq!(
        drive(delivering(), None, false, (false, false)).1,
        DriveEnd::DriveFailed
    );
}

#[test]
fn a_driven_search_is_answered_by_its_end() {
    let answered = |end, drive: Option<Result<u32, &'static str>>| {
        drive_outcome(end, drive, Some("held"))
    };
    assert_eq!(
        answered(DriveEnd::Outcome, Some(Ok(7))),
        Ok(Driven::Outcome(7))
    );
    assert_eq!(
        answered(DriveEnd::DriveFailed, Some(Err("the drive"))),
        Err(Some("the drive"))
    );
    assert_eq!(answered(DriveEnd::Outcome, None), Err(None));
    assert_eq!(answered(DriveEnd::Interrupted, None), Ok(Driven::Interrupted));
    assert_eq!(
        answered(DriveEnd::TeardownFailed, Some(Ok(7))),
        Err(Some("held"))
    );
    assert_eq!(answered(DriveEnd::Raised, None), Err(Some("held")));
}

// ---- What a migration carries ----

#[test]
fn a_format_the_build_answers_carries_nothing() {
    assert!(matches!(carried(&loaded(None, None)), Ok(None)));
}

#[test]
fn a_program_with_a_payload_carries_it_and_its_variables() {
    let mut entry = routed(None);
    entry.payload = Some(PayloadSpec {
        payload: "/opt/acme".to_string(),
        install: None,
    });
    let config = loaded(None, Some(entry));
    let carried = carried(&config).expect("it travels").expect("a program");
    assert_eq!(carried.payload.payload, "/opt/acme");
    assert_eq!(carried.env, &["ACME_KEY"]);
    assert_eq!(carried.sdk.as_deref(), Some("/opt/sdk"));
}

#[test]
fn a_program_without_a_payload_cannot_travel() {
    match carried(&loaded(None, Some(routed(Some("d1"))))) {
        Err(Fault::Validation(message)) => assert!(
            message.starts_with(
                "the run's format \"acme.v1\" is served by the program /opt/acme, and the \
                 [domain.\"acme.v1\"] entry states no payload: "
            ),
            "{message}"
        ),
        other => panic!("expected a refusal, got {other:?}"),
    }
}
