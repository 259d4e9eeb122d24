//! What a migration says to its destination machine, and how it reads the
//! answers.
//!
//! Every far-side operation is a small script that travels on a shell's input,
//! so nothing in it is quoted for the hop. A directory reaches the shell
//! unquoted, so that the shell expands a leading tilde: it must be a path, and
//! not an expression. An absence is an answer and not a failure, so the scripts
//! that look for something exit zero either way and their output is the whole of
//! what they said.
use vstd::prelude::*;
use vstd::string::*;

use crate::config::{Container, OwnedHost};
use crate::destination::Destination;
use crate::devices::DeviceInfo;
use crate::far_config::FarLayout;
use crate::fault::Fault;
use crate::routine::Routine;
use crate::process::{bootstrap_image, Exit, ImageCheck};
use crate::program_binding::BinaryChange;
use crate::reach::{Reach, SpawnMode, SshDestination};
use crate::text::{cat, cat3, decimal, parse_number, quote, same, trim, NumberFault};

verus! {

/// How much of the far run's log an attach failure carries.
pub const LOG_TAIL_LINES: u64 = 40;

// ---- The far side ------------------------------------------------------------------------------

/// How a destination answers that it can drive the run, which is the one thing
/// the two forms do differently.
#[derive(Debug)]
pub enum Readiness<'a> {
    /// A machine of yours: the worker image its entry names must be present on
    /// it.
    Image { host: &'a str, container: &'a Container },
    /// A rented machine: its workers enumerate its devices. The probe asks
    /// about the run's format, or about none where the format is a program the
    /// machine has not been given yet.
    EnumerateDevices { mode: SpawnMode, target: SshDestination, format: Option<String> },
}

/// The far side of a destination.
#[derive(Debug)]
pub struct Remote<'a> {
    /// How commands reach it.
    pub reach: Reach,
    /// Where the run lives there.
    pub layout: FarLayout,
    /// How it answers that it is ready.
    pub readiness: Readiness<'a>,
}

impl<'a> Remote<'a> {
    /// The far side of a machine of yours, reached at the ssh destination its
    /// entry names.
    pub fn owned(destination: &Destination<'_>, owned: &'a OwnedHost, run: &str) -> (remote: Remote<
        'a,
    >)
        ensures
            remote.reach matches Reach::Ssh { destination: SshDestination::Known { host }, binary }
                && host@ == owned.ssh@ && binary@ == destination.binary@,
            remote.layout.dir@ == crate::far_config::run_dir(destination.root@, run@),
            remote.layout.run@ == run@,
            remote.readiness matches Readiness::Image { host, container } && host@ == owned.ssh@
                && *container == owned.container,
    {
        let target: SshDestination = SshDestination::known(owned.ssh.as_str());
        Remote {
            reach: Reach::new(&SpawnMode::Ssh, &target, destination.binary),
            layout: FarLayout::new(destination.root, run),
            readiness: Readiness::Image { host: owned.ssh.as_str(), container: &owned.container },
        }
    }

    /// The far side of a rented machine, reached at the endpoint its provider
    /// reported, the way that provider says its machines are reached.
    pub fn rented(
        destination: &Destination<'_>,
        mode: SpawnMode,
        target: SshDestination,
        run: &str,
        format: Option<String>,
    ) -> (remote: Remote<'a>)
        ensures
            match mode {
                SpawnMode::Ssh => remote.reach matches Reach::Ssh { destination: d, binary } && d
                    == target && binary@ == destination.binary@,
                SpawnMode::Local(_) => remote.reach matches Reach::Here(binary) && binary@
                    == destination.binary@,
            },
            remote.layout.dir@ == crate::far_config::run_dir(destination.root@, run@),
            remote.layout.run@ == run@,
            remote.readiness == (Readiness::EnumerateDevices { mode, target, format }),
    {
        Remote {
            reach: Reach::new(&mode, &target, destination.binary),
            layout: FarLayout::new(destination.root, run),
            readiness: Readiness::EnumerateDevices { mode, target, format },
        }
    }
}

// ---- First contact -----------------------------------------------------------------------------

/// What a first contact with the destination found.
#[derive(Debug, Clone, PartialEq, Eq)]
pub enum Contact {
    /// The machine answered, offering these devices. A machine of yours offers
    /// none, since its worker layout is declared and not probed.
    Answered(Vec<DeviceInfo>),
    /// The machine could not be reached.
    Unreachable(Fault),
}

/// What the inspection of a machine of yours says of it.
pub fn owned_contact(host: &str, container: &Container, exit: &Exit) -> (r: Result<Contact, Fault>)
    ensures
        if crate::process::succeeded(*exit) {
            r matches Ok(Contact::Answered(devices)) && devices@.len() == 0
        } else if crate::process::is_out_of_reach(Some(host), *exit) {
            r matches Ok(Contact::Unreachable(fault)) && fault@
                == crate::fault::Complaint::Transport(
                crate::process::unreachable_text(host@, exit.shown@),
            )
        } else {
            r matches Err(fault) && fault@ == crate::fault::Complaint::Validation(
                crate::process::missing_image_text(Some(host@), *container),
            )
        },
{
    match bootstrap_image(Some(host), container, exit) {
        Ok(ImageCheck::Present) => Ok(Contact::Answered(Vec::new())),
        Ok(ImageCheck::Unreachable(fault)) => Ok(Contact::Unreachable(fault)),
        Err(fault) => Err(fault),
    }
}

/// What the probe of a rented machine says of it. A probe that brought no
/// usable answer states only that none came back, so it reads as a machine that
/// could not be reached.
pub fn rented_contact(probe: Result<Vec<DeviceInfo>, Fault>) -> (contact: Contact)
    ensures
        contact == (match probe {
            Ok(devices) => Contact::Answered(devices),
            Err(fault) => Contact::Unreachable(fault),
        }),
{
    match probe {
        Ok(devices) => Contact::Answered(devices),
        Err(fault) => Contact::Unreachable(fault),
    }
}

// ---- Scripts -----------------------------------------------------------------------------------

/// The script that makes a run's directory and writes its configuration.
pub open spec fn place_text(dir: Seq<char>, config: Seq<char>) -> Seq<char> {
    "set -e\nmkdir -p "@ + dir + "\ncat > "@ + (dir + "/sima.toml"@) + " <<'SIMA_CONFIG'\n"@
        + config + "\nSIMA_CONFIG\n"@
}

/// The script that makes the run's directory and writes `config` into it. The
/// configuration travels in a quoted heredoc, so nothing in it is expanded.
pub fn place_script(layout: &FarLayout, config: &str) -> (out: String)
    ensures
        out@ == place_text(layout.dir@, config@),
{
    let path: String = layout.config();
    let mut out: String = cat3("set -e\nmkdir -p ", layout.dir(), "\ncat > ");
    out.append(path.as_str());
    out.append(" <<'SIMA_CONFIG'\n");
    out.append(config);
    out.append("\nSIMA_CONFIG\n");
    out
}

/// The script that says whether the run's directory is there.
pub fn placed_script(layout: &FarLayout) -> (out: String)
    ensures
        out@ == "[ -d "@ + layout.dir@ + " ] && echo yes\nexit 0\n"@,
{
    cat3("[ -d ", layout.dir(), " ] && echo yes\nexit 0\n")
}

/// The script that says whether the journal at `journal` is there.
pub fn journaled_script(journal: &str) -> (out: String)
    ensures
        out@ == "[ -f "@ + journal@ + " ] && echo yes\nexit 0\n"@,
{
    cat3("[ -f ", journal, " ] && echo yes\nexit 0\n")
}

/// Whether a script that looks for something found it.
pub fn said_yes(stdout: &str) -> (r: bool)
    ensures
        r == (crate::text::trimmed(stdout@) == "yes"@),
{
    let said: String = trim(stdout);
    same(said.as_str(), "yes")
}

/// The script that names the live process of the run, where there is one. Every
/// way in which nothing is driving the run leaves no output: no directory, no
/// file that names a process, an empty one, or a process that is gone.
pub fn driving_script(layout: &FarLayout) -> (out: String)
    ensures
        out@ == "pid=$(cat "@ + (layout.dir@ + "/run.pid"@)
            + " 2>/dev/null) || exit 0\n[ -n \"$pid\" ] || exit 0\nkill -0 \"$pid\" 2>/dev/null && echo \"$pid\"\nexit 0\n"@,
{
    let pid: String = layout.pid();
    cat3(
        "pid=$(cat ",
        pid.as_str(),
        " 2>/dev/null) || exit 0\n[ -n \"$pid\" ] || exit 0\nkill -0 \"$pid\" 2>/dev/null && echo \"$pid\"\nexit 0\n",
    )
}

/// What a start adds to the far command for what the invocation stated about a
/// changed build.
pub open spec fn accept_text(accept: BinaryChange) -> Seq<char> {
    match accept {
        BinaryChange::Accept => " --accept-binary"@,
        BinaryChange::Refuse => ""@,
    }
}

/// The script that starts the far run detached and records its process.
pub open spec fn start_text(dir: Seq<char>, binary: Seq<char>, accept: BinaryChange) -> Seq<char> {
    "cd "@ + dir + " || exit 1\nsetsid nohup "@ + binary + " search "@ + (dir + "/sima.toml"@)
        + accept_text(accept) + " > "@ + (dir + "/run.log"@)
        + " 2>&1 < /dev/null &\npid=$!\necho $pid > "@ + (dir + "/run.pid"@) + "\necho $pid\n"@
}

/// The script that starts the far run detached, records its process and names
/// it. What the invocation stated about a changed build travels with it, since
/// the comparison is the far run's own.
pub fn start_script(layout: &FarLayout, binary: &str, accept: BinaryChange) -> (out: String)
    ensures
        out@ == start_text(layout.dir@, binary@, accept),
{
    let config: String = layout.config();
    let log: String = layout.log();
    let pid: String = layout.pid();
    let mut out: String = cat3("cd ", layout.dir(), " || exit 1\nsetsid nohup ");
    out.append(binary);
    out.append(" search ");
    out.append(config.as_str());
    match accept {
        BinaryChange::Accept => out.append(" --accept-binary"),
        BinaryChange::Refuse => out.append(""),
    }
    out.append(" > ");
    out.append(log.as_str());
    out.append(" 2>&1 < /dev/null &\npid=$!\necho $pid > ");
    out.append(pid.as_str());
    out.append("\necho $pid\n");
    out
}

/// The script that asks the process `pid` to wind down. A process already gone
/// is the outcome and no failure.
pub fn interrupt_script(pid: u32) -> (out: String)
    ensures
        out@ == "kill -INT "@ + crate::text::decimal_text(pid as nat) + " 2>/dev/null\nexit 0\n"@,
{
    let numeral: String = decimal(pid as u64);
    cat3("kill -INT ", numeral.as_str(), " 2>/dev/null\nexit 0\n")
}

/// The script that ends the process `pid` outright.
pub fn terminate_script(pid: u32) -> (out: String)
    ensures
        out@ == "kill -KILL "@ + crate::text::decimal_text(pid as nat) + " 2>/dev/null\nexit 0\n"@,
{
    let numeral: String = decimal(pid as u64);
    cat3("kill -KILL ", numeral.as_str(), " 2>/dev/null\nexit 0\n")
}

/// The script that reads the last lines of the far run's log. A run that never
/// started leaves none, and the script then has nothing to say.
pub fn log_tail_script(layout: &FarLayout) -> (out: String)
    ensures
        out@ == "tail -n "@ + crate::text::decimal_text(LOG_TAIL_LINES as nat) + " "@ + (layout.dir@
            + "/run.log"@) + " 2>/dev/null\nexit 0\n"@,
{
    let count: String = decimal(LOG_TAIL_LINES);
    let log: String = layout.log();
    let mut out: String = cat3("tail -n ", count.as_str(), " ");
    out.append(log.as_str());
    out.append(" 2>/dev/null\nexit 0\n");
    out
}

// ---- Answers -----------------------------------------------------------------------------------

/// What is wrong with a numeral, in words.
pub open spec fn number_fault_text(fault: NumberFault) -> Seq<char> {
    match fault {
        NumberFault::Empty => "cannot parse integer from empty string"@,
        NumberFault::InvalidDigit => "invalid digit found in string"@,
        NumberFault::TooLarge => "number too large to fit in target type"@,
    }
}

/// What is wrong with a numeral, in words.
pub fn number_fault(fault: NumberFault) -> (out: &'static str)
    ensures
        out@ == number_fault_text(fault),
{
    match fault {
        NumberFault::Empty => "cannot parse integer from empty string",
        NumberFault::InvalidDigit => "invalid digit found in string",
        NumberFault::TooLarge => "number too large to fit in target type",
    }
}

/// What an output that is no process id is reported with.
pub open spec fn not_a_pid_text(label: Seq<char>, said: Seq<char>, fault: NumberFault) -> Seq<
    char,
> {
    label + " reported "@ + crate::text::quoted(said) + " instead of a pid: "@ + number_fault_text(
        fault,
    )
}

/// Whether `r` is what the trimmed output `said` of `label` states.
pub open spec fn is_pid(said: Seq<char>, label: Seq<char>, r: Result<Option<u32>, Fault>) -> bool {
    if said.len() == 0 {
        r == Ok::<Option<u32>, Fault>(None)
    } else {
        match crate::text::number_in(said, u32::MAX as nat) {
            Ok(pid) => r matches Ok(Some(n)) && n == pid,
            Err(fault) => r matches Err(e) && e@ == crate::fault::Complaint::Validation(
                not_a_pid_text(label, said, fault),
            ),
        }
    }
}

/// The process id a far-side script printed, or nothing for the empty output
/// that means there was none. Anything else is a fault and no absence.
pub fn parse_pid(said: &str, label: &str) -> (r: Result<Option<u32>, Fault>)
    ensures
        is_pid(said@, label@, r),
{
    if said.unicode_len() == 0 {
        return Ok(None);
    }
    match parse_number(said, u32::MAX) {
        Ok(pid) => Ok(Some(pid)),
        Err(fault) => {
            let what: String = quote(said);
            let mut out: String = cat3(label, " reported ", what.as_str());
            out.append(" instead of a pid: ");
            out.append(number_fault(fault));
            Err(Fault::Validation(out))
        },
    }
}

/// The process the script of [`driving_script`] named.
pub fn driving(stdout: &str, label: &str) -> (r: Result<Option<u32>, Fault>)
    ensures
        is_pid(crate::text::trimmed(stdout@), label@, r),
{
    let said: String = trim(stdout);
    parse_pid(said.as_str(), label)
}

/// The process the script of [`start_script`] named. A start that named none is
/// a fault.
pub fn started(stdout: &str, label: &str) -> (r: Result<u32, Fault>)
    ensures
        ({
            let said = crate::text::trimmed(stdout@);
            if said.len() == 0 {
                r matches Err(e) && e@ == crate::fault::Complaint::Validation(
                    "starting the search on "@ + label@ + " reported no process id"@,
                )
            } else {
                match crate::text::number_in(said, u32::MAX as nat) {
                    Ok(pid) => r matches Ok(n) && n == pid,
                    Err(fault) => r matches Err(e) && e@ == crate::fault::Complaint::Validation(
                        not_a_pid_text(label@, said, fault),
                    ),
                }
            }
        }),
{
    match driving(stdout, label) {
        Err(fault) => Err(fault),
        Ok(Some(pid)) => Ok(pid),
        Ok(None) => Err(
            Fault::Validation(
                cat3("starting the search on ", label, " reported no process id"),
            ),
        ),
    }
}

/// A process id that a script prints, on a line of its own, is read back.
pub proof fn a_printed_pid_reads_back(pid: u32, label: Seq<char>, r: Result<Option<u32>, Fault>)
    requires
        is_pid(crate::text::decimal_text(pid as nat), label, r),
    ensures
        r == Ok::<Option<u32>, Fault>(Some(pid)),
{
    crate::text::a_numeral_reads_back(pid as nat, u32::MAX as nat);
}

/// Only silence means that nothing is driving: any other output names a process
/// or is a fault, and one that holds anything but digits, after a plus sign at
/// most, is a fault.
pub proof fn only_silence_means_nothing_is_driving(
    said: Seq<char>,
    label: Seq<char>,
    r: Result<Option<u32>, Fault>,
)
    requires
        is_pid(said, label, r),
    ensures
        r == Ok::<Option<u32>, Fault>(None) <==> said.len() == 0,
        (exists|i: int| 0 < i < said.len() && !('0' <= (#[trigger] said[i]) <= '9')) ==> r is Err,
        said.len() > 0 && said[0] != '+' && !('0' <= said[0] <= '9') ==> r is Err,
{
    if said.len() > 0 && crate::text::number_in(said, u32::MAX as nat) is Ok {
        crate::text::only_digits_read_as_a_number(said, u32::MAX as nat);
    }
}

// ---- The shell itself ----------------------------------------------------------------------------

/// How running a script on the far side failed, and what was said of it.
#[derive(Debug, Clone, PartialEq, Eq)]
pub enum ShellFailure {
    /// The shell could not be started.
    Spawn { program: String, why: String },
    /// The script could not be handed over.
    Send { why: String },
    /// The shell's end could not be waited for.
    Reap { why: String },
    /// The script exited with a failure.
    Exited { status: String },
    /// The output is not UTF-8.
    NotText { why: String },
}

/// What a failure of the shell on `label` is reported with.
pub open spec fn shell_failure_text(label: Seq<char>, failure: ShellFailure) -> Seq<char> {
    match failure {
        ShellFailure::Spawn { program, why } => "cannot search "@ + crate::text::quoted(program@)
            + " on "@ + label + ": "@ + why@,
        ShellFailure::Send { why } => "cannot send a command to "@ + label + ": "@ + why@,
        ShellFailure::Reap { why } => "cannot reap the shell on "@ + label + ": "@ + why@,
        ShellFailure::Exited { status } => "a command on "@ + label + " exited with "@ + status@,
        ShellFailure::NotText { why } => "output from "@ + label + " is not UTF-8: "@ + why@,
    }
}

/// The report of a failure of the shell on `label`.
pub fn shell_failure(label: &str, failure: &ShellFailure) -> (fault: Fault)
    ensures
        fault@ == crate::fault::Complaint::Transport(shell_failure_text(label@, *failure)),
{
    let out: String = match failure {
        ShellFailure::Spawn { program, why } => {
            let name: String = quote(program.as_str());
            let mut out: String = cat3("cannot search ", name.as_str(), " on ");
            out.append(label);
            out.append(": ");
            out.append(why.as_str());
            out
        },
        ShellFailure::Send { why } => {
            let start: String = cat3("cannot send a command to ", label, ": ");
            cat(start.as_str(), why.as_str())
        },
        ShellFailure::Reap { why } => {
            let start: String = cat3("cannot reap the shell on ", label, ": ");
            cat(start.as_str(), why.as_str())
        },
        ShellFailure::Exited { status } => {
            let start: String = cat3("a command on ", label, " exited with ");
            cat(start.as_str(), status.as_str())
        },
        ShellFailure::NotText { why } => {
            let start: String = cat3("output from ", label, " is not UTF-8: ");
            cat(start.as_str(), why.as_str())
        },
    };
    Fault::Transport(out)
}

// ---- The journal, read once ------------------------------------------------------------------------

/// Where the one reading of the far run's journal stands. A journal that is not
/// there is a fact about the file, so it is asked for first.
#[derive(Debug, Clone, Copy, PartialEq, Eq, Structural)]
pub enum Snapshotting {
    /// Is the journal's file there?
    Probing,
    /// Read it.
    Reading,
    /// The reading is over.
    Over(SnapshotEnd),
}

/// What the reading of the far run's journal came to.
#[derive(Debug, Clone, Copy, PartialEq, Eq, Structural)]
pub enum SnapshotEnd {
    /// There is no journal.
    Absent,
    /// Its records are at hand.
    Read,
    /// What was asked of the far side failed, and its failure is the answer.
    Raised,
}

/// What the reading is told.
#[derive(Debug, Clone, Copy, PartialEq, Eq, Structural)]
pub enum SnapshotAnswer {
    /// Whether the file is there.
    Journaled(bool),
    /// The records came.
    Read,
    /// It failed.
    Failed,
}

impl Snapshotting {
    /// The state after `answer`. An answer to something else leaves it.
    pub open spec fn next(self, answer: SnapshotAnswer) -> Snapshotting {
        match (self, answer) {
            (Snapshotting::Probing, SnapshotAnswer::Journaled(there)) => if there {
                Snapshotting::Reading
            } else {
                Snapshotting::Over(SnapshotEnd::Absent)
            },
            (Snapshotting::Reading, SnapshotAnswer::Read) => Snapshotting::Over(SnapshotEnd::Read),
            (Snapshotting::Probing, SnapshotAnswer::Failed) => Snapshotting::Over(
                SnapshotEnd::Raised,
            ),
            (Snapshotting::Reading, SnapshotAnswer::Failed) => Snapshotting::Over(
                SnapshotEnd::Raised,
            ),
            (state, _) => state,
        }
    }

    /// The state after `answers`, from the start.
    pub open spec fn after(answers: Seq<SnapshotAnswer>) -> Snapshotting
        decreases answers.len(),
    {
        if answers.len() == 0 {
            Snapshotting::Probing
        } else {
            Snapshotting::after(answers.drop_last()).next(answers.last())
        }
    }
}

/// The state of reading the journal that `answer` leads to. The reading begins
/// at [`Snapshotting::Probing`].
pub fn snapshot(at: Snapshotting, answer: SnapshotAnswer) -> (state: Snapshotting)
    ensures
        state == at.next(answer),
{
    match (at, answer) {
        (Snapshotting::Probing, SnapshotAnswer::Journaled(there)) => {
            if there {
                Snapshotting::Reading
            } else {
                Snapshotting::Over(SnapshotEnd::Absent)
            }
        },
        (Snapshotting::Reading, SnapshotAnswer::Read) => Snapshotting::Over(SnapshotEnd::Read),
        (Snapshotting::Probing, SnapshotAnswer::Failed) => Snapshotting::Over(SnapshotEnd::Raised),
        (Snapshotting::Reading, SnapshotAnswer::Failed) => Snapshotting::Over(SnapshotEnd::Raised),
        (state, _) => state,
    }
}

/// A journal reads as absent only where its file was asked for and is not
/// there; a reading that failed is never taken for an absence.
pub proof fn an_absence_is_a_fact_about_the_file(answers: Seq<SnapshotAnswer>)
    requires
        Snapshotting::after(answers) == Snapshotting::Over(SnapshotEnd::Absent),
    ensures
        answers.contains(SnapshotAnswer::Journaled(false)),
    decreases answers.len(),
{
    let fewer = answers.drop_last();
    if Snapshotting::after(fewer) == Snapshotting::Over(SnapshotEnd::Absent) {
        an_absence_is_a_fact_about_the_file(fewer);
        let i = choose|i: int|
            0 <= i < fewer.len() && fewer[i] == SnapshotAnswer::Journaled(false);
        assert(answers[i] == SnapshotAnswer::Journaled(false));
    } else {
        assert(answers[answers.len() - 1] == SnapshotAnswer::Journaled(false));
    }
}

impl Routine for Snapshotting {
    type Action = Snapshotting;

    type Answer = SnapshotAnswer;

    open spec fn calls_for(self) -> Snapshotting {
        self
    }

    open spec fn reached(self, answers: Seq<SnapshotAnswer>) -> Snapshotting
        decreases answers.len(),
    {
        if answers.len() == 0 {
            self
        } else {
            self.reached(answers.drop_last()).next(answers.last())
        }
    }

    open spec fn can_answer(action: Snapshotting, answer: SnapshotAnswer) -> bool {
        match action {
            Snapshotting::Probing => answer is Journaled || answer is Failed,
            Snapshotting::Reading => answer is Read || answer is Failed,
            Snapshotting::Over(_) => false,
        }
    }
}

/// What the one reading of a journal comes to, from what it was told last: a file
/// that is there is read, one that is not is absent, and a failure is neither.
pub proof fn what_reading_a_journal_does_next(answers: Seq<SnapshotAnswer>)
    ensures
        ({
            let start = Snapshotting::Probing;
            let now = start.reached(answers);
            match crate::routine::last_done(start, answers) {
                None => now == Snapshotting::Probing,
                Some((_, SnapshotAnswer::Journaled(there))) => now == if there {
                    Snapshotting::Reading
                } else {
                    Snapshotting::Over(SnapshotEnd::Absent)
                },
                Some((_, SnapshotAnswer::Read)) => now == Snapshotting::Over(SnapshotEnd::Read),
                Some((_, SnapshotAnswer::Failed)) => now == Snapshotting::Over(SnapshotEnd::Raised),
            }
        }),
    decreases answers.len(),
{
    if answers.len() > 0 {
        what_reading_a_journal_does_next(answers.drop_last());
    }
}

} // verus!
