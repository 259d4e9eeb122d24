//! What the commands a run's setup depends on said, and where the workers'
//! binary is found.
use vstd::prelude::*;
use vstd::string::*;

use crate::config::Container;
use crate::fault::Fault;
use crate::program_tree::join_path;
use crate::text::{cat, cat3, join, quote, trim};

verus! {

/// The code ssh exits with when it could not make the connection at all, as
/// distinct from a command on the far side exiting with a failure.
pub const SSH_UNREACHABLE: i32 = 255;

/// How a command ended.
#[derive(Debug, Clone, PartialEq, Eq)]
pub struct Exit {
    /// Its exit code, where it exited of its own accord.
    pub code: Option<i32>,
    /// The status as it is shown.
    pub shown: String,
}

/// Whether the command succeeded.
pub open spec fn succeeded(exit: Exit) -> bool {
    exit.code == Some(0i32)
}

impl Exit {
    /// Whether the command succeeded.
    pub fn success(&self) -> (r: bool)
        ensures
            r == succeeded(*self),
    {
        match self.code {
            Some(code) => code == 0,
            None => false,
        }
    }
}

// ---- The worker image -------------------------------------------------------------------------

/// What asking a machine for a pool's worker image found.
#[derive(Debug, Clone, PartialEq, Eq)]
pub enum ImageCheck {
    /// The runtime answered and holds the image.
    Present,
    /// The machine could not be reached to ask, which is what a fresh or
    /// rebooting one answers until it is up.
    Unreachable(Fault),
}

/// What an unreachable machine is reported with.
pub open spec fn unreachable_text(host: Seq<char>, status: Seq<char>) -> Seq<char> {
    "cannot reach "@ + crate::text::quoted(host) + ": ssh exited with "@ + status
}

/// What a missing image is reported with: the command that puts it there.
pub open spec fn missing_image_text(host: Option<Seq<char>>, container: Container) -> Seq<char> {
    let place = match host {
        Some(host) => "on "@ + crate::text::quoted(host),
        None => "locally"@,
    };
    let fix = match host {
        Some(host) => "podman save "@ + container.image@ + " | ssh "@ + host + " "@
            + container.runtime@ + " load"@,
        None => "podman build -t "@ + container.image@
            + " -f containers/sima/Containerfile ."@,
    };
    "worker image "@ + crate::text::quoted(container.image@) + " is not present "@ + place
        + "; put it there with: "@ + fix
}

/// Whether the inspection of an image over ssh ended without a connection. A
/// local runtime that exits with the same code speaks about the image.
pub open spec fn is_out_of_reach(host: Option<&str>, exit: Exit) -> bool {
    host is Some && exit.code == Some(SSH_UNREACHABLE)
}

/// Decides from the way an inspection of the image ended whether a pool's
/// worker image is present. A missing image is a failure that names the command
/// that puts it there; a machine that could not be reached is an answer, since
/// it may yet come up.
pub fn bootstrap_image(host: Option<&str>, container: &Container, exit: &Exit) -> (r: Result<
    ImageCheck,
    Fault,
>)
    ensures
        if succeeded(*exit) {
            r matches Ok(check) && check is Present
        } else if is_out_of_reach(host, *exit) {
            r matches Ok(ImageCheck::Unreachable(fault)) && fault@
                == crate::fault::Complaint::Transport(unreachable_text(host->0@, exit.shown@))
        } else {
            r matches Err(fault) && fault@ == crate::fault::Complaint::Validation(
                missing_image_text(
                    match host {
                        Some(host) => Some(host@),
                        None => None,
                    },
                    *container,
                ),
            )
        },
{
    if exit.success() {
        return Ok(ImageCheck::Present);
    }
    let refused: bool = match exit.code {
        Some(code) => code == SSH_UNREACHABLE,
        None => false,
    };
    if refused {
        if let Some(host) = host {
            let name: String = quote(host);
            let mut out: String = cat3("cannot reach ", name.as_str(), ": ssh exited with ");
            out.append(exit.shown.as_str());
            return Ok(ImageCheck::Unreachable(Fault::Transport(out)));
        }
    }
    let (place, fix): (String, String) = match host {
        Some(host) => {
            let name: String = quote(host);
            let mut fix: String = cat3("podman save ", container.image.as_str(), " | ssh ");
            fix.append(host);
            fix.append(" ");
            fix.append(container.runtime.as_str());
            fix.append(" load");
            (cat("on ", name.as_str()), fix)
        },
        None => (
            "locally".to_owned(),
            cat3(
                "podman build -t ",
                container.image.as_str(),
                " -f containers/sima/Containerfile .",
            ),
        ),
    };
    let image: String = quote(container.image.as_str());
    let mut out: String = cat3("worker image ", image.as_str(), " is not present ");
    out.append(place.as_str());
    out.append("; put it there with: ");
    out.append(fix.as_str());
    Err(Fault::Validation(out))
}

// ---- Command output -----------------------------------------------------------------------------

/// What a command that could not be run is reported with.
pub open spec fn run_failed_text(program: Seq<char>, why: Seq<char>) -> Seq<char> {
    "running "@ + crate::text::quoted(program) + " failed: "@ + why
}

/// The failure of a command that could not be run.
pub fn run_failed(program: &str, why: &str) -> (fault: Fault)
    ensures
        fault@ == crate::fault::Complaint::Transport(run_failed_text(program@, why@)),
{
    let name: String = quote(program);
    let mut out: String = cat3("running ", name.as_str(), " failed: ");
    out.append(why);
    Fault::Transport(out)
}

/// What a command that failed is reported with: its status, and what it said
/// where it said anything.
pub open spec fn command_failed_text(
    program: Seq<char>,
    status: Seq<char>,
    stderr: Seq<char>,
) -> Seq<char> {
    let said = crate::text::trimmed(stderr);
    let exited = crate::text::quoted(program) + " exited with "@ + status;
    if said.len() == 0 {
        exited
    } else {
        exited + ": "@ + said
    }
}

/// What a command's output comes to: its text, where it succeeded and the
/// output is UTF-8. The output that is not stands as why it is not.
pub fn command_stdout(
    program: &str,
    exit: &Exit,
    stderr: &str,
    stdout: Result<String, String>,
) -> (r: Result<String, Fault>)
    ensures
        if !succeeded(*exit) {
            r matches Err(fault) && fault@ == crate::fault::Complaint::Transport(
                command_failed_text(program@, exit.shown@, stderr@),
            )
        } else {
            match stdout {
                Ok(text) => r == Ok::<String, Fault>(text),
                Err(why) => r matches Err(fault) && fault@ == crate::fault::Complaint::Transport(
                    crate::text::quoted(program@) + " output is not UTF-8: "@ + why@,
                ),
            }
        },
{
    let name: String = quote(program);
    if !exit.success() {
        let said: String = trim(stderr);
        let mut out: String = cat3(name.as_str(), " exited with ", exit.shown.as_str());
        if said.as_str().unicode_len() > 0 {
            out.append(": ");
            out.append(said.as_str());
        }
        return Err(Fault::Transport(out));
    }
    match stdout {
        Ok(text) => Ok(text),
        Err(why) => Err(
            Fault::Transport(cat3(name.as_str(), " output is not UTF-8: ", why.as_str())),
        ),
    }
}

// ---- The workers' binary ------------------------------------------------------------------------

/// Where the workers' binary is looked for: beside the current executable, and
/// in the directory above that.
pub open spec fn candidates_of(beside: Option<Seq<char>>, above: Option<Seq<char>>) -> Seq<
    Seq<char>,
> {
    let first = match beside {
        Some(dir) => seq![crate::program_tree::inside(dir, "sima-worker"@)],
        None => Seq::empty(),
    };
    let second = match above {
        Some(dir) => seq![crate::program_tree::inside(dir, "sima-worker"@)],
        None => Seq::empty(),
    };
    first + second
}

/// Where the workers' binary is looked for, given the directory the current
/// executable stands in and the one above it.
pub fn worker_candidates(beside: Option<&str>, above: Option<&str>) -> (out: Vec<String>)
    ensures
        crate::text::views(out@) == candidates_of(
            match beside {
                Some(dir) => Some(dir@),
                None => None,
            },
            match above {
                Some(dir) => Some(dir@),
                None => None,
            },
        ),
{
    let mut out: Vec<String> = Vec::new();
    if let Some(dir) = beside {
        out.push(join_path(dir, "sima-worker"));
    }
    if let Some(dir) = above {
        out.push(join_path(dir, "sima-worker"));
    }
    proof {
        let expected = candidates_of(
            match beside {
                Some(dir) => Some(dir@),
                None => None,
            },
            match above {
                Some(dir) => Some(dir@),
                None => None,
            },
        );
        assert(crate::text::views(out@) =~= expected);
    }
    out
}

/// The first candidate that is a file.
pub open spec fn first_present(present: Seq<bool>) -> Option<int>
    decreases present.len(),
{
    if present.len() == 0 {
        None
    } else {
        match first_present(present.drop_last()) {
            Some(i) => Some(i),
            None => if present.last() {
                Some(present.len() - 1)
            } else {
                None
            },
        }
    }
}

/// The first candidate that is a file.
fn find_present(present: &Vec<bool>) -> (r: Option<usize>)
    ensures
        match r {
            Some(i) => i < present@.len() && first_present(present@) == Some(i as int),
            None => first_present(present@) is None,
        },
{
    let mut i: usize = 0;
    while i < present.len()
        invariant
            i <= present@.len(),
            first_present(present@.take(i as int)) is None,
        decreases present@.len() - i,
    {
        proof {
            assert(present@.take(i + 1).drop_last() =~= present@.take(i as int));
        }
        if present[i] {
            proof {
                assert(first_present(present@.take(i + 1)) == Some(i as int));
                lemma_first_stays(present@, i + 1);
            }
            return Some(i);
        }
        i = i + 1;
    }
    proof {
        assert(present@.take(present@.len() as int) =~= present@);
    }
    None
}

/// The workers' binary: the configured path where one is, else the first of the
/// `candidates` that is `present`. Where the current executable's path is
/// unknown there are none, and the reason stands in their place.
pub fn worker_binary(
    configured: Option<String>,
    candidates: Result<Vec<String>, String>,
    present: &Vec<bool>,
) -> (r: Result<String, Fault>)
    requires
        candidates matches Ok(list) ==> list@.len() == present@.len(),
    ensures
        match configured {
            Some(path) => r == Ok::<String, Fault>(path),
            None => match candidates {
                Err(why) => r matches Err(fault) && fault@ == crate::fault::Complaint::Validation(
                    "cannot locate sima-worker: the current executable's path is unknown: "@
                        + why@,
                ),
                Ok(list) => match first_present(present@) {
                    Some(i) => r == Ok::<String, Fault>(list@[i]),
                    None => r matches Err(fault) && fault@
                        == crate::fault::Complaint::Validation(
                        "sima-worker binary not found; set SIMA_WORKER or place it at one of: "@
                            + crate::text::joined(crate::text::views(list@), ", "@),
                    ),
                },
            },
        },
{
    if let Some(path) = configured {
        return Ok(path);
    }
    match candidates {
        Err(why) => Err(
            Fault::Validation(
                cat(
                    "cannot locate sima-worker: the current executable's path is unknown: ",
                    why.as_str(),
                ),
            ),
        ),
        Ok(list) => {
            if let Some(i) = find_present(present) {
                return Ok(list[i].clone());
            }
            let searched: String = join(&list, ", ");
            Err(
                Fault::Validation(
                    cat(
                        "sima-worker binary not found; set SIMA_WORKER or place it at one of: ",
                        searched.as_str(),
                    ),
                ),
            )
        },
    }
}

proof fn lemma_first_stays(present: Seq<bool>, n: int)
    requires
        0 <= n <= present.len(),
        first_present(present.take(n)) is Some,
    ensures
        first_present(present) == first_present(present.take(n)),
    decreases present.len() - n,
{
    if n == present.len() {
        assert(present.take(n) =~= present);
    } else {
        assert(present.take(n + 1).drop_last() =~= present.take(n));
        lemma_first_stays(present, n + 1);
    }
}

/// The workers' binary is the first candidate that is there: what is chosen is
/// present, nothing before it is, and nothing is chosen only where none is.
pub proof fn the_first_candidate_present_is_taken(present: Seq<bool>)
    ensures
        match first_present(present) {
            Some(i) => {
                &&& 0 <= i < present.len()
                &&& present[i]
                &&& forall|k: int| 0 <= k < i ==> !#[trigger] present[k]
            },
            None => forall|k: int| 0 <= k < present.len() ==> !#[trigger] present[k],
        },
    decreases present.len(),
{
    if present.len() > 0 {
        let rest = present.drop_last();
        the_first_candidate_present_is_taken(rest);
        assert forall|k: int| 0 <= k < rest.len() implies rest[k] == #[trigger] present[k] by {}
    }
}

/// The workers' binary is looked for beside the executable first, and above it
/// after that; a directory that is not known is not looked in.
pub proof fn the_binary_is_looked_for_beside_first(
    beside: Option<Seq<char>>,
    above: Option<Seq<char>>,
)
    ensures
        ({
            let candidates = candidates_of(beside, above);
            let near: int = if beside is Some {
                1
            } else {
                0
            };
            let far: int = if above is Some {
                1
            } else {
                0
            };
            &&& candidates.len() == near + far
            &&& beside matches Some(dir) ==> candidates[0] == crate::program_tree::inside(
                dir,
                "sima-worker"@,
            )
            &&& above matches Some(dir) ==> candidates.last() == crate::program_tree::inside(
                dir,
                "sima-worker"@,
            )
        }),
{
}

} // verus!
