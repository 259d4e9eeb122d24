//! What the pipeline says in a search's journal.
use vstd::prelude::*;
use vstd::string::*;

verus! {

/// How serious a diagnostic is.
#[derive(Debug, Clone, Copy, PartialEq, Eq, Structural)]
pub enum Level {
    Info,
    Warn,
}

/// One thing the pipeline says.
#[derive(Debug, Clone, PartialEq, Eq)]
pub enum Event {
    /// An offer was taken for a member of the fleet.
    Renting {
        member: String,
        machine: String,
        gpu_model: String,
        gpu_count: u32,
        rate_microusd_hour: u64,
    },
    /// A machine that was taken is waited for.
    AwaitingMachine { member: String, timeout_ms: u64 },
    /// A program is being installed on a member's machine.
    InstallingProgram { member: String },
    /// The operator let go while machines were being acquired.
    AcquisitionAbandoned { released: usize },
    /// A rented machine answers.
    InstanceOnline {
        tag: String,
        instance: String,
        gpu_model: String,
        gpu_count: u32,
        rate_microusd_hour: u64,
        host: String,
    },
    /// A rented machine is gone.
    InstanceLost { tag: String, instance: String },
    /// A machine took the place of one that is gone.
    InstanceReplaced { tag: String, from: String, to: String },
    /// The spend reached its ceiling.
    BudgetSpendExhausted { accrued_microusd: u64, cap_microusd: u64 },
    /// The wall clock reached its ceiling.
    BudgetWallClockExhausted { deadline_ms: u64 },
    /// A remark for the operator.
    Diagnostic { level: Level, source: String, message: String, host: Option<String> },
}

/// Why a budget is exhausted.
#[derive(Debug, Clone, Copy, PartialEq, Eq, Structural)]
pub enum Exhaustion {
    /// What was spent reached what may be.
    Spend { accrued: u64, cap: u64 },
    /// The time is over.
    WallClock { deadline_ms: u64 },
}

/// The event a spent ceiling raises, the same for a fleet and a migration.
pub fn budget_exhausted(exhaustion: Exhaustion) -> (event: Event)
    ensures
        event == (match exhaustion {
            Exhaustion::Spend { accrued, cap } => Event::BudgetSpendExhausted {
                accrued_microusd: accrued,
                cap_microusd: cap,
            },
            Exhaustion::WallClock { deadline_ms } => Event::BudgetWallClockExhausted {
                deadline_ms,
            },
        }),
{
    match exhaustion {
        Exhaustion::Spend { accrued, cap } => Event::BudgetSpendExhausted {
            accrued_microusd: accrued,
            cap_microusd: cap,
        },
        Exhaustion::WallClock { deadline_ms } => Event::BudgetWallClockExhausted { deadline_ms },
    }
}

} // verus!
