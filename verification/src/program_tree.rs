//! Where the program answering for one format is installed on the machine that
//! runs it, and how the tree is filled.
//!
//! ```text
//!   <config-dir>/program/<format>/
//!       payload/           the manifest's files, materialized
//!       install.sh         the manifest's script, when it carries one
//!       install.log        the last install's combined output
//!       installed/         what the script filled
//!       installed/program  the entry point the configuration's binary names
//!       installed.digest   the manifest digest this tree was built from
//! ```
use vstd::prelude::*;
use vstd::string::*;

use crate::fault::Fault;
use crate::routine::Routine;
use crate::payload::{validate_path, FileEntry, Manifest};
use crate::text::{cat, cat3, last_lines};

verus! {

/// How many of the install log's last lines a failure carries.
pub const LOG_TAIL_LINES: usize = 20;

/// The mode of a file that runs.
pub const EXECUTABLE_MODE: u32 = 0o755;

/// The mode of a file that does not.
pub const REGULAR_MODE: u32 = 0o644;

// ---- Paths ---------------------------------------------------------------------------------

/// The path of `name` in the directory `dir`. A directory that ends in a
/// separator, and the empty one, need no further separator.
pub open spec fn inside(dir: Seq<char>, name: Seq<char>) -> Seq<char> {
    if dir.len() == 0 || dir.last() == '/' {
        dir + name
    } else {
        dir + "/"@ + name
    }
}

/// The path of the relative `name` in the directory `dir`.
pub fn join_path(dir: &str, name: &str) -> (out: String)
    ensures
        out@ == inside(dir@, name@),
{
    let n: usize = dir.unicode_len();
    if n == 0 {
        return cat(dir, name);
    }
    if dir.get_char(n - 1) == '/' {
        cat(dir, name)
    } else {
        cat3(dir, "/", name)
    }
}

/// What stands before the last separator of a path of several components, and
/// nothing for a path of one.
pub open spec fn parent_of(path: Seq<char>) -> Option<Seq<char>>
    decreases path.len(),
{
    if path.len() == 0 {
        None
    } else if path.last() == '/' {
        Some(path.drop_last())
    } else {
        parent_of(path.drop_last())
    }
}

/// The directory a relative path stands in, where it names one.
pub fn parent(path: &str) -> (r: Option<String>)
    ensures
        match r {
            Some(dir) => parent_of(path@) == Some(dir@),
            None => parent_of(path@) is None,
        },
{
    let mut n: usize = path.unicode_len();
    proof {
        assert(path@.take(n as int) =~= path@);
    }
    while n > 0
        invariant
            n <= path@.len(),
            parent_of(path@) == parent_of(path@.take(n as int)),
        decreases n,
    {
        proof {
            assert(path@.take(n as int).drop_last() =~= path@.take(n - 1));
        }
        if path.get_char(n - 1) == '/' {
            let dir: &str = path.substring_char(0, n - 1);
            proof {
                assert(dir@ =~= path@.take(n - 1));
            }
            return Some(dir.to_owned());
        }
        n = n - 1;
    }
    None
}

/// A file stands in the directory it was put into: the parent of a name in a
/// directory is that directory, for a name of one component.
pub proof fn a_file_stands_in_its_directory(dir: Seq<char>, name: Seq<char>)
    requires
        dir.len() > 0,
        dir.last() != '/',
        !name.contains('/'),
    ensures
        parent_of(inside(dir, name)) == Some(dir),
    decreases name.len(),
{
    reveal_strlit("/");
    let path = inside(dir, name);
    if name.len() == 0 {
        assert(path.drop_last() =~= dir);
    } else {
        let fewer = name.drop_last();
        assert(!fewer.contains('/')) by {
            if fewer.contains('/') {
                let k = choose|k: int| 0 <= k < fewer.len() && fewer[k] == '/';
                assert(name[k] == '/');
            }
        }
        assert(path.last() == name.last());
        assert(name.last() != '/') by {
            assert(name[name.len() - 1] == name.last());
        }
        assert(path.drop_last() =~= inside(dir, fewer));
        a_file_stands_in_its_directory(dir, fewer);
    }
}

/// A path of one component stands in no directory.
pub proof fn a_name_alone_has_no_directory(name: Seq<char>)
    requires
        !name.contains('/'),
    ensures
        parent_of(name) is None,
    decreases name.len(),
{
    if name.len() > 0 {
        let fewer = name.drop_last();
        assert(!fewer.contains('/')) by {
            if fewer.contains('/') {
                let k = choose|k: int| 0 <= k < fewer.len() && fewer[k] == '/';
                assert(name[k] == '/');
            }
        }
        assert(name[name.len() - 1] == name.last());
        a_name_alone_has_no_directory(fewer);
    }
}

// ---- The tree ------------------------------------------------------------------------------

/// The tree one program is installed in.
#[derive(Debug, Clone, PartialEq, Eq)]
pub struct ProgramTree {
    /// The directory everything in the tree stands in.
    pub root: String,
}

/// The root of the tree for `format` beside a configuration in `config_dir`.
pub open spec fn tree_root(config_dir: Seq<char>, format: Seq<char>) -> Seq<char> {
    inside(inside(config_dir, "program"@), format)
}

impl ProgramTree {
    /// The tree for `format` beside a configuration in `config_dir`. A format
    /// that would mean a directory other than the one below is refused.
    pub fn new(config_dir: &str, format: &str) -> (r: Result<ProgramTree, Fault>)
        ensures
            match r {
                Ok(tree) => {
                    &&& crate::payload::is_portable(format@)
                    &&& tree.root@ == tree_root(config_dir@, format@)
                },
                Err(fault) => {
                    &&& !crate::payload::is_portable(format@)
                    &&& fault@ == crate::fault::Complaint::Validation(
                        crate::payload::not_portable_text(format@),
                    )
                },
            },
    {
        match validate_path(format) {
            Err(fault) => Err(fault),
            Ok(_) => {
                let programs: String = join_path(config_dir, "program");
                Ok(ProgramTree::at(join_path(programs.as_str(), format)))
            },
        }
    }

    /// The tree rooted at `root`, whatever named it.
    pub fn at(root: String) -> (tree: ProgramTree)
        ensures
            tree.root == root,
    {
        ProgramTree { root }
    }

    /// Where the manifest's files are materialized.
    pub fn payload(&self) -> (out: String)
        ensures
            out@ == inside(self.root@, "payload"@),
    {
        join_path(self.root.as_str(), "payload")
    }

    /// Where the install script puts what it built.
    pub fn installed(&self) -> (out: String)
        ensures
            out@ == inside(self.root@, "installed"@),
    {
        join_path(self.root.as_str(), "installed")
    }

    /// The entry point the configuration's binary names.
    pub fn entry_point(&self) -> (out: String)
        ensures
            out@ == self.entry(),
    {
        let installed: String = self.installed();
        join_path(installed.as_str(), "program")
    }

    /// The text of the entry point.
    pub open spec fn entry(self) -> Seq<char> {
        inside(inside(self.root@, "installed"@), "program"@)
    }

    /// The file that records the digest the tree was built from.
    pub fn stamp(&self) -> (out: String)
        ensures
            out@ == inside(self.root@, "installed.digest"@),
    {
        join_path(self.root.as_str(), "installed.digest")
    }

    /// Where the install script is written.
    pub fn script(&self) -> (out: String)
        ensures
            out@ == inside(self.root@, "install.sh"@),
    {
        join_path(self.root.as_str(), "install.sh")
    }

    /// Where the install's output goes.
    pub fn log(&self) -> (out: String)
        ensures
            out@ == inside(self.root@, "install.log"@),
    {
        join_path(self.root.as_str(), "install.log")
    }
}

/// The entry point a far configuration names, read from the directory that
/// configuration stands in, is the entry point of the tree installed for it.
pub proof fn the_named_entry_point_is_the_installed_one(
    config_dir: Seq<char>,
    format: Seq<char>,
    tree: ProgramTree,
)
    requires
        crate::payload::is_portable(format),
        tree.root@ == tree_root(config_dir, format),
    ensures
        crate::far_config::entry_point_of(format).take(2) == "./"@,
        tree.entry() == inside(config_dir, crate::far_config::entry_point_of(format).skip(2)),
{
    crate::payload::a_portable_path_ends_in_a_name(format);
    reveal_strlit("/");
    reveal_strlit("./");
    reveal_strlit("program");
    reveal_strlit("installed");
    reveal_strlit("./program/");
    reveal_strlit("/installed/program");
    let programs = inside(config_dir, "program"@);
    assert(programs.last() == 'm');
    let root = programs + "/"@ + format;
    assert(root == tree.root@);
    assert(root.last() == format.last());
    let installed = root + "/"@ + "installed"@;
    assert(installed.last() == 'd');
    assert(tree.entry() == installed + "/"@ + "program"@);
    let named = crate::far_config::entry_point_of(format);
    assert(named.take(2) =~= "./"@);
    assert(tree.entry() =~= inside(config_dir, named.skip(2)));
}

/// Two formats beside one configuration are installed in two trees.
pub proof fn formats_never_share_a_tree(config_dir: Seq<char>, a: Seq<char>, b: Seq<char>)
    requires
        a != b,
    ensures
        tree_root(config_dir, a) != tree_root(config_dir, b),
{
    let programs = inside(config_dir, "program"@);
    reveal_strlit("program");
    assert(programs.last() == 'm');
    let dir = programs + "/"@;
    if dir + a == dir + b {
        assert((dir + a).skip(dir.len() as int) =~= a);
        assert((dir + b).skip(dir.len() as int) =~= b);
    }
}

// ---- Materializing ----------------------------------------------------------------------------

/// The mode a materialized file is given.
pub open spec fn mode_for(executable: bool) -> u32 {
    if executable {
        EXECUTABLE_MODE
    } else {
        REGULAR_MODE
    }
}

/// The mode a materialized file is given: what it carried where it was
/// ingested, reduced to the one bit that matters.
pub fn mode_of(executable: bool) -> (mode: u32)
    ensures
        mode == mode_for(executable),
{
    if executable {
        EXECUTABLE_MODE
    } else {
        REGULAR_MODE
    }
}

/// Whether a file of this mode runs for anyone.
pub fn runs(mode: u32) -> (r: bool)
    ensures
        r == (mode & 0o111 != 0),
{
    mode & 0o111 != 0
}

/// A file ingested with its mode and materialized again runs exactly where it
/// ran before.
pub proof fn an_execute_bit_survives(mode: u32)
    ensures
        (mode_for(mode & 0o111 != 0) & 0o111 != 0) == (mode & 0o111 != 0),
{
    assert(0o755u32 & 0o111u32 != 0) by (bit_vector);
    assert(0o644u32 & 0o111u32 == 0) by (bit_vector);
}

/// One file to write.
#[derive(Debug, Clone, PartialEq, Eq)]
pub struct Placement {
    /// The file's path.
    pub path: String,
    /// The object holding its bytes.
    pub object: String,
    /// The mode it is given.
    pub mode: u32,
}

/// Whether `placement` puts `entry` under `dest`.
pub open spec fn places(placement: Placement, entry: FileEntry, dest: Seq<char>) -> bool {
    &&& placement.path@ == inside(dest, entry.path@)
    &&& placement.object == entry.object
    &&& placement.mode == mode_for(entry.executable)
}

/// The files that materialize `manifest` under `dest`, in its order: each at
/// its path, with its object's bytes and its execute bit.
pub fn materialize(manifest: &Manifest, dest: &str) -> (files: Vec<Placement>)
    ensures
        files@.len() == manifest.entries@.len(),
        forall|i: int|
            0 <= i < files@.len() ==> places(#[trigger] files@[i], manifest.entries@[i], dest@),
{
    let mut files: Vec<Placement> = Vec::new();
    let mut i: usize = 0;
    while i < manifest.entries.len()
        invariant
            i <= manifest.entries@.len(),
            files@.len() == i,
            forall|k: int|
                0 <= k < i ==> places(#[trigger] files@[k], manifest.entries@[k], dest@),
        decreases manifest.entries@.len() - i,
    {
        let entry: &FileEntry = &manifest.entries[i];
        files.push(
            Placement {
                path: join_path(dest, entry.path.as_str()),
                object: entry.object.clone(),
                mode: mode_of(entry.executable),
            },
        );
        i = i + 1;
    }
    files
}

/// What is materialized from the manifest of a tree is that tree: one file for
/// each of its files and no other, at its path, with its bytes and its execute
/// bit.
pub proof fn what_is_materialized_is_the_tree(
    manifest: Manifest,
    files: Map<Seq<char>, (bool, Seq<char>)>,
    dest: Seq<char>,
    placements: Seq<Placement>,
)
    requires
        crate::payload::is_files_of(manifest.entries@, files),
        placements.len() == manifest.entries@.len(),
        forall|i: int|
            0 <= i < placements.len() ==> places(
                #[trigger] placements[i],
                manifest.entries@[i],
                dest,
            ),
    ensures
        forall|path: Seq<char>| #[trigger]
            files.dom().contains(path) ==> exists|i: int|
                0 <= i < placements.len() && restores(#[trigger] placements[i], dest, path, files),
        forall|i: int|
            0 <= i < placements.len() ==> restores_one_of(#[trigger] placements[i], dest, files),
        forall|i: int, j: int|
            #![trigger placements[i], placements[j]]
            0 <= i < j < placements.len() ==> placements[i].path@ != placements[j].path@,
{
    let entries = manifest.entries@;
    assert forall|i: int| 0 <= i < placements.len() implies restores(
        #[trigger] placements[i],
        dest,
        entries[i].path@,
        files,
    ) && restores_one_of(placements[i], dest, files) by {
        assert(crate::payload::is_file_of(entries[i], files));
        assert(places(placements[i], entries[i], dest));
        assert(0o755u32 & 0o111u32 != 0) by (bit_vector);
        assert(0o644u32 & 0o111u32 == 0) by (bit_vector);
    }
    assert forall|path: Seq<char>| #[trigger] files.dom().contains(path) implies exists|i: int|
        0 <= i < placements.len() && restores(#[trigger] placements[i], dest, path, files) by {
        let i = choose|i: int| 0 <= i < entries.len() && (#[trigger] entries[i]).path@ == path;
        assert(restores(placements[i], dest, path, files));
    }
    assert forall|i: int, j: int|
        #![trigger placements[i], placements[j]]
        0 <= i < j < placements.len() implies placements[i].path@ != placements[j].path@ by {
        assert(places(placements[i], entries[i], dest));
        assert(places(placements[j], entries[j], dest));
        if placements[i].path@ == placements[j].path@ {
            lemma_inside_parts(dest, entries[i].path@, entries[j].path@);
        }
    }
}

/// Whether a placement puts the file at `path` of a tree back under `dest`.
pub open spec fn restores(
    placement: Placement,
    dest: Seq<char>,
    path: Seq<char>,
    files: Map<Seq<char>, (bool, Seq<char>)>,
) -> bool {
    &&& placement.path@ == inside(dest, path)
    &&& placement.object@ == files[path].1
    &&& files[path].0 == (placement.mode & 0o111 != 0)
}

/// Whether a placement puts one of the files of a tree back under `dest`.
pub open spec fn restores_one_of(
    placement: Placement,
    dest: Seq<char>,
    files: Map<Seq<char>, (bool, Seq<char>)>,
) -> bool {
    exists|path: Seq<char>|
        files.dom().contains(path) && #[trigger] restores(placement, dest, path, files)
}

proof fn lemma_inside_parts(dir: Seq<char>, a: Seq<char>, b: Seq<char>)
    requires
        inside(dir, a) == inside(dir, b),
    ensures
        a == b,
{
    reveal_strlit("/");
    let x = inside(dir, a);
    let base = x.len() - a.len();
    assert(x.skip(base) =~= a);
    assert(x.skip(base) =~= b);
}

/// The file that is the program, where the manifest names one file and no script
/// makes the program of it: that file's bytes at the entry point, running
/// whether or not it ran where it came from.
pub fn lone_program(tree: &ProgramTree, manifest: &Manifest) -> (r: Option<Placement>)
    ensures
        match r {
            Some(placement) => {
                &&& manifest.entries@.len() == 1
                &&& placement.path@ == tree.entry()
                &&& placement.object == manifest.entries@[0].object
                &&& placement.mode == EXECUTABLE_MODE
                &&& placement.mode & 0o111 != 0
            },
            None => manifest.entries@.len() != 1,
        },
        manifest.wf() && manifest.install is None ==> r is Some,
{
    proof {
        assert(0o755u32 & 0o111u32 != 0) by (bit_vector);
    }
    match manifest.lone_file() {
        Some(entry) => Some(
            Placement {
                path: tree.entry_point(),
                object: entry.object.clone(),
                mode: EXECUTABLE_MODE,
            },
        ),
        None => None,
    }
}

/// Every object a destination needs before it can install the payload `digest`
/// names: the manifest, and each file in its order.
pub open spec fn closure_of(digest: String, entries: Seq<FileEntry>) -> Seq<String> {
    seq![digest] + entries.map_values(|entry: FileEntry| entry.object)
}

/// Every object a destination needs before it can install the payload `digest`
/// names.
pub fn closure(digest: String, manifest: &Manifest) -> (objects: Vec<String>)
    ensures
        objects@ == closure_of(digest, manifest.entries@),
{
    let mut objects: Vec<String> = vec![digest];
    let mut files: Vec<String> = manifest.objects();
    objects.append(&mut files);
    objects
}

// ---- Installing --------------------------------------------------------------------------------

/// How an install script is run: by the shell, in the tree's root, with the
/// two directories it works between in its environment. Its streams go to the
/// log, and it reads nothing.
#[derive(Debug, Clone, PartialEq, Eq)]
pub struct InstallRun {
    /// The program and its arguments.
    pub argv: Vec<String>,
    /// The directory it runs in.
    pub cwd: String,
    /// What its environment holds beyond the machine's own.
    pub env: Vec<(String, String)>,
    /// The file both of its streams go to.
    pub log: String,
}

/// Whether `run` is how the install script of `tree` is run, between the
/// absolute directories `payload` and `installed`.
pub open spec fn is_install_run(
    run: InstallRun,
    tree: ProgramTree,
    payload: String,
    installed: String,
) -> bool {
    &&& crate::text::views(run.argv@) == seq!["/bin/sh"@, inside(tree.root@, "install.sh"@)]
    &&& run.cwd == tree.root
    &&& run.env@.len() == 2
    &&& run.env@[0].0@ == "SIMA_PAYLOAD_DIR"@
    &&& run.env@[0].1 == payload
    &&& run.env@[1].0@ == "SIMA_INSTALL_DIR"@
    &&& run.env@[1].1 == installed
    &&& run.log@ == inside(tree.root@, "install.log"@)
}

/// How the install script of `tree` is run.
pub fn install_run(tree: &ProgramTree, payload: String, installed: String) -> (run: InstallRun)
    ensures
        is_install_run(run, *tree, payload, installed),
{
    let argv: Vec<String> = vec!["/bin/sh".to_owned(), tree.script()];
    proof {
        assert(crate::text::views(argv@) =~= seq![
            "/bin/sh"@,
            inside(tree.root@, "install.sh"@),
        ]);
    }
    InstallRun {
        argv,
        cwd: tree.root.clone(),
        env: vec![
            ("SIMA_PAYLOAD_DIR".to_owned(), payload),
            ("SIMA_INSTALL_DIR".to_owned(), installed),
        ],
        log: tree.log(),
    }
}

/// What a failed install says of its log.
pub open spec fn log_tail_text(path: Seq<char>, log: Option<Seq<char>>) -> Seq<char> {
    match log {
        None => "("@ + path + " could not be read)"@,
        Some(text) => crate::text::joined(
            crate::text::last_of(crate::text::lines_of(text), LOG_TAIL_LINES as nat),
            "\n"@,
        ),
    }
}

/// The last lines of the install log at `path`. A log that cannot be read says
/// so.
pub fn log_tail(path: &str, log: Option<&str>) -> (out: String)
    ensures
        out@ == log_tail_text(
            path@,
            match log {
                Some(text) => Some(text@),
                None => None,
            },
        ),
{
    match log {
        None => cat3("(", path, " could not be read)"),
        Some(text) => last_lines(text, LOG_TAIL_LINES),
    }
}

/// What an install script that failed is reported with.
pub open spec fn install_failed_text(
    tree: ProgramTree,
    status: Seq<char>,
    log: Option<Seq<char>>,
) -> Seq<char> {
    let path = inside(tree.root@, "install.log"@);
    "the install script "@ + inside(tree.root@, "install.sh"@) + " exited with "@ + status
        + "; the whole log is at "@ + path + ", and its last lines are:\n"@ + log_tail_text(
        path,
        log,
    )
}

/// The failure of an install script that exited with `status`, leaving `log`.
pub fn install_failed(tree: &ProgramTree, status: &str, log: Option<&str>) -> (fault: Fault)
    ensures
        fault@ == crate::fault::Complaint::Validation(
            install_failed_text(
                *tree,
                status@,
                match log {
                    Some(text) => Some(text@),
                    None => None,
                },
            ),
        ),
{
    let path: String = tree.log();
    let mut out: String = "the install script ".to_owned();
    let script: String = tree.script();
    out.append(script.as_str());
    out.append(" exited with ");
    out.append(status);
    out.append("; the whole log is at ");
    out.append(path.as_str());
    out.append(", and its last lines are:\n");
    let tail: String = log_tail(path.as_str(), log);
    out.append(tail.as_str());
    Fault::Validation(out)
}

/// What an install that left no entry point is reported with.
pub open spec fn no_entry_point_text(tree: ProgramTree) -> Seq<char> {
    "the install left no executable "@ + tree.entry()
        + "; a payload's install script leaves the program it built at $SIMA_INSTALL_DIR/program"@
}

/// The failure of an install that left no entry point.
pub fn no_entry_point(tree: &ProgramTree) -> (fault: Fault)
    ensures
        fault@ == crate::fault::Complaint::Validation(no_entry_point_text(*tree)),
{
    let entry: String = tree.entry_point();
    Fault::Validation(
        cat3(
            "the install left no executable ",
            entry.as_str(),
            "; a payload's install script leaves the program it built at $SIMA_INSTALL_DIR/program",
        ),
    )
}

// ---- Filling the tree --------------------------------------------------------------------------

/// Where the filling of a tree stands.
#[derive(Debug, Clone, Copy, PartialEq, Eq, Structural)]
pub enum BuildPhase {
    /// The earlier payload directory is being removed.
    ClearPayload,
    /// The earlier installed directory is being removed.
    ClearInstalled,
    /// The manifest's files are being written.
    Materialize,
    /// The installed directory is being made; `scripted` is whether the
    /// manifest carries a script.
    MakeInstalled { scripted: bool },
    /// The script is being written out.
    WriteScript,
    /// The script is running.
    RunScript,
    /// The log of a failed script is being read.
    ReadLog,
    /// The lone file is being put where the entry point is looked for.
    PlaceLone,
    /// The entry point is being looked at.
    Inspect,
    /// The filling is over.
    Over(BuildEnd),
}

/// How the filling of a tree ended.
#[derive(Debug, Clone, Copy, PartialEq, Eq, Structural)]
pub enum BuildEnd {
    /// The entry point is there and runs.
    Filled,
    /// The script exited with a failure.
    ScriptFailed,
    /// The install left no entry point that runs.
    NoEntryPoint,
    /// What was asked of the machine failed, and its failure is the answer.
    Raised,
}

/// What the filling is told.
#[derive(Debug, Clone, Copy, PartialEq, Eq, Structural)]
pub enum BuildAnswer {
    /// It was done.
    Done,
    /// The files are written; `scripted` is whether the manifest carries a
    /// script.
    Materialized { scripted: bool },
    /// The script exited; `success` is how.
    Exited { success: bool },
    /// The log was read, or could not be.
    LogRead,
    /// Whether the entry point is there and runs.
    Executable(bool),
    /// It failed.
    Failed,
}

impl BuildPhase {
    /// The phase after `answer`. An answer to something else leaves it.
    pub open spec fn next(self, answer: BuildAnswer) -> BuildPhase {
        match (self, answer) {
            (BuildPhase::Over(end), _) => BuildPhase::Over(end),
            (BuildPhase::ReadLog, BuildAnswer::LogRead) => BuildPhase::Over(BuildEnd::ScriptFailed),
            (BuildPhase::ReadLog, _) => BuildPhase::ReadLog,
            (_, BuildAnswer::Failed) => BuildPhase::Over(BuildEnd::Raised),
            (BuildPhase::ClearPayload, BuildAnswer::Done) => BuildPhase::ClearInstalled,
            (BuildPhase::ClearInstalled, BuildAnswer::Done) => BuildPhase::Materialize,
            (BuildPhase::Materialize, BuildAnswer::Materialized { scripted }) => {
                BuildPhase::MakeInstalled { scripted }
            },
            (BuildPhase::MakeInstalled { scripted }, BuildAnswer::Done) => if scripted {
                BuildPhase::WriteScript
            } else {
                BuildPhase::PlaceLone
            },
            (BuildPhase::WriteScript, BuildAnswer::Done) => BuildPhase::RunScript,
            (BuildPhase::RunScript, BuildAnswer::Exited { success }) => if success {
                BuildPhase::Inspect
            } else {
                BuildPhase::ReadLog
            },
            (BuildPhase::PlaceLone, BuildAnswer::Done) => BuildPhase::Inspect,
            (BuildPhase::Inspect, BuildAnswer::Executable(runs)) => BuildPhase::Over(
                if runs {
                    BuildEnd::Filled
                } else {
                    BuildEnd::NoEntryPoint
                },
            ),
            (phase, _) => phase,
        }
    }

    /// The phase after `answers`, from the start.
    pub open spec fn after(answers: Seq<BuildAnswer>) -> BuildPhase
        decreases answers.len(),
    {
        if answers.len() == 0 {
            BuildPhase::ClearPayload
        } else {
            BuildPhase::after(answers.drop_last()).next(answers.last())
        }
    }
}

/// The phase of filling a tree that `answer` leads to. The filling begins at
/// [`BuildPhase::ClearPayload`].
pub fn build(at: BuildPhase, answer: BuildAnswer) -> (phase: BuildPhase)
    ensures
        phase == at.next(answer),
{
    match (at, answer) {
        (BuildPhase::Over(end), _) => BuildPhase::Over(end),
        (BuildPhase::ReadLog, BuildAnswer::LogRead) => BuildPhase::Over(BuildEnd::ScriptFailed),
        (BuildPhase::ReadLog, _) => BuildPhase::ReadLog,
        (_, BuildAnswer::Failed) => BuildPhase::Over(BuildEnd::Raised),
        (BuildPhase::ClearPayload, BuildAnswer::Done) => BuildPhase::ClearInstalled,
        (BuildPhase::ClearInstalled, BuildAnswer::Done) => BuildPhase::Materialize,
        (BuildPhase::Materialize, BuildAnswer::Materialized { scripted }) => {
            BuildPhase::MakeInstalled { scripted }
        },
        (BuildPhase::MakeInstalled { scripted }, BuildAnswer::Done) => {
            if scripted {
                BuildPhase::WriteScript
            } else {
                BuildPhase::PlaceLone
            }
        },
        (BuildPhase::WriteScript, BuildAnswer::Done) => BuildPhase::RunScript,
        (BuildPhase::RunScript, BuildAnswer::Exited { success }) => {
            if success {
                BuildPhase::Inspect
            } else {
                BuildPhase::ReadLog
            }
        },
        (BuildPhase::PlaceLone, BuildAnswer::Done) => BuildPhase::Inspect,
        (BuildPhase::Inspect, BuildAnswer::Executable(runs)) => {
            if runs {
                BuildPhase::Over(BuildEnd::Filled)
            } else {
                BuildPhase::Over(BuildEnd::NoEntryPoint)
            }
        },
        (phase, _) => phase,
    }
}

/// Whether answer `i` is the one given at a phase.
pub open spec fn answered_at(answers: Seq<BuildAnswer>, i: int, phase: BuildPhase) -> bool {
    0 <= i < answers.len() && BuildPhase::after(answers.take(i)) == phase
}

/// A tree is filled only where the entry point was looked at, and the look found
/// that it runs.
pub proof fn a_filled_tree_has_an_entry_point_that_runs(answers: Seq<BuildAnswer>)
    requires
        BuildPhase::after(answers) == BuildPhase::Over(BuildEnd::Filled),
    ensures
        exists|i: int|
            #![trigger answers[i]]
            answered_at(answers, i, BuildPhase::Inspect) && answers[i] == BuildAnswer::Executable(
                true,
            ),
    decreases answers.len(),
{
    let fewer = answers.drop_last();
    let last = answers.len() - 1;
    assert(answers.take(last) =~= fewer);
    if BuildPhase::after(fewer) == BuildPhase::Over(BuildEnd::Filled) {
        a_filled_tree_has_an_entry_point_that_runs(fewer);
        let i = choose|i: int|
            #![trigger fewer[i]]
            answered_at(fewer, i, BuildPhase::Inspect) && fewer[i] == BuildAnswer::Executable(true);
        assert(fewer.take(i) =~= answers.take(i));
        assert(answers[i] == fewer[i]);
    } else {
        assert(answers[last] == BuildAnswer::Executable(true));
    }
}

/// Whether the phase comes after the earlier trees were removed.
pub open spec fn is_past_clearing(phase: BuildPhase) -> bool {
    !(phase is ClearPayload) && !(phase is ClearInstalled) && phase != BuildPhase::Over(
        BuildEnd::Raised,
    )
}

/// Nothing is written into a tree before what an earlier install left is gone:
/// wherever the filling is past the clearing, the payload and then the installed
/// tree were removed, and each removal was answered as done.
pub proof fn nothing_is_written_over_an_earlier_tree(answers: Seq<BuildAnswer>)
    requires
        is_past_clearing(BuildPhase::after(answers)),
    ensures
        exists|i: int, j: int|
            #![trigger answers[i], answers[j]]
            i < j && answered_at(answers, i, BuildPhase::ClearPayload) && answers[i]
                == BuildAnswer::Done && answered_at(answers, j, BuildPhase::ClearInstalled)
                && answers[j] == BuildAnswer::Done,
    decreases answers.len(),
{
    let fewer = answers.drop_last();
    let last = answers.len() - 1;
    let before = BuildPhase::after(fewer);
    assert(answers.take(last) =~= fewer);
    if is_past_clearing(before) {
        nothing_is_written_over_an_earlier_tree(fewer);
        let (i, j) = choose|i: int, j: int|
            #![trigger fewer[i], fewer[j]]
            i < j && answered_at(fewer, i, BuildPhase::ClearPayload) && fewer[i]
                == BuildAnswer::Done && answered_at(fewer, j, BuildPhase::ClearInstalled)
                && fewer[j] == BuildAnswer::Done;
        assert(fewer.take(i) =~= answers.take(i));
        assert(fewer.take(j) =~= answers.take(j));
        assert(answers[i] == fewer[i] && answers[j] == fewer[j]);
    } else {
        assert(before is ClearInstalled);
        lemma_installed_is_cleared_second(fewer);
        let i = choose|i: int|
            #![trigger fewer[i]]
            answered_at(fewer, i, BuildPhase::ClearPayload) && fewer[i] == BuildAnswer::Done;
        assert(fewer.take(i) =~= answers.take(i));
        assert(answers[i] == fewer[i]);
        assert(answers[last] == BuildAnswer::Done);
    }
}

proof fn lemma_installed_is_cleared_second(answers: Seq<BuildAnswer>)
    requires
        BuildPhase::after(answers) is ClearInstalled,
    ensures
        exists|i: int|
            #![trigger answers[i]]
            answered_at(answers, i, BuildPhase::ClearPayload) && answers[i] == BuildAnswer::Done,
    decreases answers.len(),
{
    let fewer = answers.drop_last();
    let last = answers.len() - 1;
    assert(answers.take(last) =~= fewer);
    if BuildPhase::after(fewer) is ClearInstalled {
        lemma_installed_is_cleared_second(fewer);
        let i = choose|i: int|
            #![trigger fewer[i]]
            answered_at(fewer, i, BuildPhase::ClearPayload) && fewer[i] == BuildAnswer::Done;
        assert(fewer.take(i) =~= answers.take(i));
        assert(answers[i] == fewer[i]);
    } else {
        assert(answers[last] == BuildAnswer::Done);
    }
}

/// The entry point is looked at only once it was put there: by the script, which
/// exited with success, or by placing the lone file, which is done exactly where
/// the manifest carries no script.
pub proof fn a_script_or_the_lone_file_is_the_program(at: BuildPhase, answer: BuildAnswer)
    ensures
        at.next(answer) is Inspect && !(at is Inspect) ==> (at is RunScript && answer == (
        BuildAnswer::Exited { success: true })) || (at is PlaceLone && answer
            == BuildAnswer::Done),
        at.next(answer) is PlaceLone && !(at is PlaceLone) ==> at == (BuildPhase::MakeInstalled {
            scripted: false,
        }),
        at.next(answer) is WriteScript && !(at is WriteScript) ==> at == (
        BuildPhase::MakeInstalled { scripted: true }),
        at.next(answer) matches BuildPhase::MakeInstalled { scripted } && !(
        at is MakeInstalled) ==> answer == (BuildAnswer::Materialized {
            scripted: at.next(answer)->scripted,
        }),
{
}

impl Routine for BuildPhase {
    type Action = BuildPhase;

    type Answer = BuildAnswer;

    open spec fn calls_for(self) -> BuildPhase {
        self
    }

    open spec fn reached(self, answers: Seq<BuildAnswer>) -> BuildPhase
        decreases answers.len(),
    {
        if answers.len() == 0 {
            self
        } else {
            self.reached(answers.drop_last()).next(answers.last())
        }
    }

    open spec fn can_answer(action: BuildPhase, answer: BuildAnswer) -> bool {
        match action {
            BuildPhase::Materialize => answer is Materialized || answer is Failed,
            BuildPhase::RunScript => answer is Exited || answer is Failed,
            BuildPhase::ReadLog => answer is LogRead,
            BuildPhase::Inspect => answer is Executable || answer is Failed,
            BuildPhase::Over(_) => false,
            _ => answer is Done || answer is Failed,
        }
    }
}

/// What filling a tree comes to, from what it was told last. What an earlier
/// install left is cleared, the files are written, and the place of the program
/// is made; then the script a payload carries is written and run, or its lone
/// file put in place; and last the entry point is looked at.
pub proof fn what_filling_a_tree_does_next(answers: Seq<BuildAnswer>)
    ensures
        ({
            let start = BuildPhase::ClearPayload;
            let now = start.reached(answers);
            match crate::routine::last_done(start, answers) {
                None => now == BuildPhase::ClearPayload,
                Some((_, BuildAnswer::Failed)) => now == BuildPhase::Over(BuildEnd::Raised),
                Some((BuildPhase::ClearPayload, _)) => now == BuildPhase::ClearInstalled,
                Some((BuildPhase::ClearInstalled, _)) => now == BuildPhase::Materialize,
                Some((_, BuildAnswer::Materialized { scripted })) => now
                    == (BuildPhase::MakeInstalled { scripted }),
                Some((BuildPhase::MakeInstalled { .. }, _)) => now
                    == if crate::routine::answer_to(start, answers, BuildPhase::Materialize)
                    == Some(BuildAnswer::Materialized { scripted: true }) {
                    BuildPhase::WriteScript
                } else {
                    BuildPhase::PlaceLone
                },
                Some((BuildPhase::WriteScript, _)) => now == BuildPhase::RunScript,
                Some((_, BuildAnswer::Exited { success })) => now == if success {
                    BuildPhase::Inspect
                } else {
                    BuildPhase::ReadLog
                },
                Some((_, BuildAnswer::LogRead)) => now == BuildPhase::Over(BuildEnd::ScriptFailed),
                Some((_, BuildAnswer::Executable(runs))) => now == BuildPhase::Over(
                    if runs {
                        BuildEnd::Filled
                    } else {
                        BuildEnd::NoEntryPoint
                    },
                ),
                Some((_, BuildAnswer::Done)) => now == BuildPhase::Inspect,
            }
        }),
    decreases answers.len(),
{
    lemma_materialized_so_far(answers);
    if answers.len() > 0 {
        what_filling_a_tree_does_next(answers.drop_last());
        lemma_materialized_so_far(answers.drop_last());
    }
}

proof fn lemma_materialized_so_far(answers: Seq<BuildAnswer>)
    ensures
        BuildPhase::ClearPayload.reached(answers) matches BuildPhase::MakeInstalled { scripted }
            ==> crate::routine::answer_to(
            BuildPhase::ClearPayload,
            answers,
            BuildPhase::Materialize,
        ) == Some(BuildAnswer::Materialized { scripted }),
    decreases answers.len(),
{
    if answers.len() > 0 {
        lemma_materialized_so_far(answers.drop_last());
    }
}

} // verus!
