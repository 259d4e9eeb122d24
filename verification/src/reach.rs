//! How a far-side command is reached: over ssh, or as a program on this
//! machine.
use vstd::prelude::*;
use vstd::string::*;

use crate::text::{cat3, decimal};

verus! {

// ---- Lists of arguments --------------------------------------------------------------------

/// The texts of a list of arguments.
pub open spec fn words(list: Seq<&str>) -> Seq<Seq<char>> {
    list.map_values(|word: &str| word@)
}

/// Adds `more` to the end of `argv`.
pub fn add_words(argv: &mut Vec<String>, more: &[&str])
    ensures
        crate::text::views(final(argv)@) == crate::text::views(old(argv)@) + words(more@),
{
    let ghost was = crate::text::views(argv@);
    let mut i: usize = 0;
    proof {
        assert(was + words(more@).take(0) =~= was);
    }
    while i < more.len()
        invariant
            i <= more@.len(),
            crate::text::views(argv@) == was + words(more@).take(i as int),
        decreases more@.len() - i,
    {
        let ghost now = crate::text::views(argv@);
        argv.push(more[i].to_owned());
        proof {
            assert(crate::text::views(argv@) =~= now.push(more@[i as int]@));
            assert(words(more@).take(i + 1) =~= words(more@).take(i as int).push(more@[i as int]@));
            assert(was + words(more@).take(i + 1) =~= (was + words(more@).take(i as int)).push(
                more@[i as int]@,
            ));
        }
        i = i + 1;
    }
    proof {
        assert(words(more@).take(more@.len() as int) =~= words(more@));
    }
}

/// Adds the strings `more` to the end of `argv`.
pub fn add_strings(argv: &mut Vec<String>, more: &Vec<String>)
    ensures
        crate::text::views(final(argv)@) == crate::text::views(old(argv)@) + crate::text::views(
            more@,
        ),
{
    let ghost was = crate::text::views(argv@);
    let ghost all = crate::text::views(more@);
    let mut i: usize = 0;
    proof {
        assert(was + all.take(0) =~= was);
    }
    while i < more.len()
        invariant
            i <= more@.len(),
            all == crate::text::views(more@),
            crate::text::views(argv@) == was + all.take(i as int),
        decreases more@.len() - i,
    {
        let ghost now = crate::text::views(argv@);
        argv.push(more[i].clone());
        proof {
            assert(crate::text::views(argv@) =~= now.push(more@[i as int]@));
            assert(all.take(i + 1) =~= all.take(i as int).push(more@[i as int]@));
            assert(was + all.take(i + 1) =~= (was + all.take(i as int)).push(more@[i as int]@));
        }
        i = i + 1;
    }
    proof {
        assert(all.take(more@.len() as int) =~= all);
    }
}

// ---- Destinations -----------------------------------------------------------------------------

/// A machine as ssh is told of it.
#[derive(Debug, Clone, PartialEq, Eq)]
pub enum SshDestination {
    /// A machine this one's own ssh configuration knows.
    Known { host: String },
    /// A rented machine, which nothing here knows yet: its host key is taken
    /// as it comes and kept nowhere.
    Rented { host: String, port: u16, user: String },
}

/// The host a destination names.
pub open spec fn host_of(destination: SshDestination) -> Seq<char> {
    match destination {
        SshDestination::Known { host } => host@,
        SshDestination::Rented { host, .. } => host@,
    }
}

/// The command line up to the far command.
pub open spec fn prefix_of(destination: SshDestination) -> Seq<Seq<char>> {
    match destination {
        SshDestination::Known { host } => seq!["ssh"@, "-o"@, "BatchMode=yes"@, host@, "--"@],
        SshDestination::Rented { host, port, user } => seq![
            "ssh"@,
            "-o"@,
            "BatchMode=yes"@,
            "-o"@,
            "StrictHostKeyChecking=accept-new"@,
            "-o"@,
            "UserKnownHostsFile=/dev/null"@,
            "-o"@,
            "LogLevel=ERROR"@,
            "-o"@,
            "ConnectTimeout=10"@,
            "-p"@,
            crate::text::decimal_text(port as nat),
            user@ + "@"@ + host@,
            "--"@,
        ],
    }
}

impl SshDestination {
    /// A machine the ssh configuration knows as `host`.
    pub fn known(host: &str) -> (destination: SshDestination)
        ensures
            destination matches SshDestination::Known { host: named } && named@ == host@,
    {
        SshDestination::Known { host: host.to_owned() }
    }

    /// A rented machine at an endpoint.
    pub fn rented(host: &str, port: u16, user: &str) -> (destination: SshDestination)
        ensures
            destination matches SshDestination::Rented { host: h, port: p, user: u } && h@ == host@
                && p == port && u@ == user@,
    {
        SshDestination::Rented { host: host.to_owned(), port, user: user.to_owned() }
    }

    /// The host the destination names.
    pub fn host(&self) -> (out: String)
        ensures
            out@ == host_of(*self),
    {
        match self {
            SshDestination::Known { host } => host.clone(),
            SshDestination::Rented { host, .. } => host.clone(),
        }
    }

    /// The command line up to the far command.
    pub fn prefix(&self) -> (argv: Vec<String>)
        ensures
            crate::text::views(argv@) == prefix_of(*self),
    {
        let mut argv: Vec<String> = Vec::new();
        match self {
            SshDestination::Known { host } => {
                let more: [&str; 5] = ["ssh", "-o", "BatchMode=yes", host.as_str(), "--"];
                add_words(&mut argv, &more);
                proof {
                    assert(crate::text::views(argv@) =~= prefix_of(*self));
                }
            },
            SshDestination::Rented { host, port, user } => {
                let login: String = cat3(user.as_str(), "@", host.as_str());
                let port: String = decimal(*port as u64);
                let more: [&str; 15] = [
                    "ssh",
                    "-o",
                    "BatchMode=yes",
                    "-o",
                    "StrictHostKeyChecking=accept-new",
                    "-o",
                    "UserKnownHostsFile=/dev/null",
                    "-o",
                    "LogLevel=ERROR",
                    "-o",
                    "ConnectTimeout=10",
                    "-p",
                    port.as_str(),
                    login.as_str(),
                    "--",
                ];
                add_words(&mut argv, &more);
                proof {
                    assert(crate::text::views(argv@) =~= prefix_of(*self));
                }
            },
        }
        argv
    }

    /// The same destination again.
    pub fn copy(&self) -> (destination: SshDestination)
        ensures
            destination == *self,
    {
        match self {
            SshDestination::Known { host } => SshDestination::Known { host: host.clone() },
            SshDestination::Rented { host, port, user } => SshDestination::Rented {
                host: host.clone(),
                port: *port,
                user: user.clone(),
            },
        }
    }
}

// ---- Reaching a machine -----------------------------------------------------------------------

/// How a provider's machines are reached.
#[derive(Debug, Clone, PartialEq, Eq)]
pub enum SpawnMode {
    /// Over ssh.
    Ssh,
    /// On this machine, with this worker binary.
    Local(String),
}

/// How a far-side command is reached.
#[derive(Debug, Clone, PartialEq, Eq)]
pub enum Reach {
    /// Over ssh at this destination, where `binary` runs the verb.
    Ssh { destination: SshDestination, binary: String },
    /// A binary on this machine, for a destination reached without a hop.
    Here(String),
}

/// The command line up to the far binary's own arguments.
pub open spec fn verb_prefix(reach: Reach) -> Seq<Seq<char>> {
    match reach {
        Reach::Ssh { destination, binary } => prefix_of(destination).push(binary@),
        Reach::Here(binary) => seq![binary@],
    }
}

impl Reach {
    /// How a destination's `binary` is reached under `mode`.
    pub fn new(mode: &SpawnMode, destination: &SshDestination, binary: &str) -> (reach: Reach)
        ensures
            match *mode {
                SpawnMode::Ssh => reach matches Reach::Ssh { destination: d, binary: b } && d
                    == *destination && b@ == binary@,
                SpawnMode::Local(_) => reach matches Reach::Here(b) && b@ == binary@,
            },
    {
        match mode {
            SpawnMode::Ssh => Reach::Ssh {
                destination: destination.copy(),
                binary: binary.to_owned(),
            },
            SpawnMode::Local(_) => Reach::Here(binary.to_owned()),
        }
    }

    /// The command line that runs the far binary with `args`.
    pub fn verb_argv(&self, args: &[&str]) -> (argv: Vec<String>)
        ensures
            crate::text::views(argv@) == verb_prefix(*self) + words(args@),
    {
        let mut argv: Vec<String> = match self {
            Reach::Ssh { destination, binary } => {
                let mut argv: Vec<String> = destination.prefix();
                let ghost was = argv@;
                argv.push(binary.clone());
                proof {
                    assert(crate::text::views(argv@) =~= crate::text::views(was).push(binary@));
                }
                argv
            },
            Reach::Here(binary) => {
                let argv: Vec<String> = vec![binary.clone()];
                proof {
                    assert(crate::text::views(argv@) =~= seq![binary@]);
                }
                argv
            },
        };
        add_words(&mut argv, args);
        argv
    }

    /// The command line that serves one sync session over the far side's
    /// `far_store`, a path there that travels unresolved, and the run it holds.
    pub fn sync_serve_argv(&self, far_store: &str, far_run: &str) -> (argv: Vec<String>)
        ensures
            crate::text::views(argv@) == verb_prefix(*self) + seq![
                "sync-serve"@,
                far_store@,
                "--search"@,
                far_run@,
            ],
    {
        let args: [&str; 4] = ["sync-serve", far_store, "--search", far_run];
        proof {
            assert(words(args@) =~= seq!["sync-serve"@, far_store@, "--search"@, far_run@]);
        }
        self.verb_argv(&args)
    }

    /// The command line that serves the live follow stream of the run
    /// `far_config` names.
    pub fn follow_serve_argv(&self, far_config: &str) -> (argv: Vec<String>)
        ensures
            crate::text::views(argv@) == verb_prefix(*self) + seq!["follow-serve"@, far_config@],
    {
        let args: [&str; 2] = ["follow-serve", far_config];
        proof {
            assert(words(args@) =~= seq!["follow-serve"@, far_config@]);
        }
        self.verb_argv(&args)
    }

    /// The command line that reads the journal of the run `far_config` names
    /// once and exits.
    pub fn follow_serve_once_argv(&self, far_config: &str) -> (argv: Vec<String>)
        ensures
            crate::text::views(argv@) == verb_prefix(*self) + seq![
                "follow-serve"@,
                far_config@,
                "--once"@,
            ],
    {
        let args: [&str; 3] = ["follow-serve", far_config, "--once"];
        proof {
            assert(words(args@) =~= seq!["follow-serve"@, far_config@, "--once"@]);
        }
        self.verb_argv(&args)
    }

    /// The command line that runs a shell on the far side, reading its script
    /// from its input, so that nothing in the script is quoted for the hop.
    pub fn shell_argv(&self) -> (argv: Vec<String>)
        ensures
            crate::text::views(argv@) == (match *self {
                Reach::Ssh { destination, .. } => prefix_of(destination).push("sh"@),
                Reach::Here(_) => seq!["/bin/sh"@],
            }),
    {
        match self {
            Reach::Ssh { destination, .. } => {
                let mut argv: Vec<String> = destination.prefix();
                let ghost was = argv@;
                argv.push("sh".to_owned());
                proof {
                    assert(crate::text::views(argv@) =~= crate::text::views(was).push("sh"@));
                }
                argv
            },
            Reach::Here(_) => {
                let argv: Vec<String> = vec!["/bin/sh".to_owned()];
                proof {
                    assert(crate::text::views(argv@) =~= seq!["/bin/sh"@]);
                }
                argv
            },
        }
    }

    /// The command line that runs one shell script and leaves the shell's input
    /// free.
    pub fn shell_script_argv(&self, script: &str) -> (argv: Vec<String>)
        ensures
            crate::text::views(argv@) == (match *self {
                Reach::Ssh { destination, .. } => prefix_of(destination) + seq![
                    "sh"@,
                    "-c"@,
                    script@,
                ],
                Reach::Here(_) => seq!["/bin/sh"@, "-c"@, script@],
            }),
    {
        match self {
            Reach::Ssh { destination, .. } => {
                let mut argv: Vec<String> = destination.prefix();
                let more: [&str; 3] = ["sh", "-c", script];
                proof {
                    assert(words(more@) =~= seq!["sh"@, "-c"@, script@]);
                }
                add_words(&mut argv, &more);
                argv
            },
            Reach::Here(_) => {
                let mut argv: Vec<String> = Vec::new();
                let more: [&str; 3] = ["/bin/sh", "-c", script];
                add_words(&mut argv, &more);
                proof {
                    assert(crate::text::views(argv@) =~= seq!["/bin/sh"@, "-c"@, script@]);
                }
                argv
            },
        }
    }

    /// The binary that drives the run on the far side.
    pub fn binary(&self) -> (out: &str)
        ensures
            out@ == (match *self {
                Reach::Ssh { binary, .. } => binary@,
                Reach::Here(binary) => binary@,
            }),
    {
        match self {
            Reach::Ssh { binary, .. } => binary.as_str(),
            Reach::Here(binary) => binary.as_str(),
        }
    }

    /// How the destination is named in an error: the ssh destination, or the
    /// binary standing in for a far side reached without a hop.
    pub fn label(&self) -> (out: String)
        ensures
            out@ == label_of(*self),
    {
        match self {
            Reach::Ssh { destination, .. } => destination.host(),
            Reach::Here(binary) => binary.clone(),
        }
    }
}

/// How the destination is named in an error.
pub open spec fn label_of(reach: Reach) -> Seq<char> {
    match reach {
        Reach::Ssh { destination, .. } => host_of(destination),
        Reach::Here(binary) => binary@,
    }
}

/// Whatever verb is run on a destination, it is reached the same way: the
/// command line begins with the same words and ends with the verb's own.
pub proof fn every_verb_is_reached_alike(reach: Reach, a: Seq<Seq<char>>, b: Seq<Seq<char>>)
    ensures
        (verb_prefix(reach) + a).take(verb_prefix(reach).len() as int) == (verb_prefix(reach)
            + b).take(verb_prefix(reach).len() as int),
        (verb_prefix(reach) + a).skip(verb_prefix(reach).len() as int) == a,
{
    let p = verb_prefix(reach);
    assert((p + a).take(p.len() as int) =~= p);
    assert((p + b).take(p.len() as int) =~= p);
    assert((p + a).skip(p.len() as int) =~= a);
}

/// However a machine is reached over ssh, ssh asks nobody anything and the words
/// after the machine are the far command's; a rented machine is named with its
/// user, on its own port, and one that is known by its name alone.
pub proof fn ssh_asks_nobody_anything(destination: SshDestination)
    ensures
        ({
            let words = prefix_of(destination);
            &&& words.len() >= 5
            &&& words[0] == "ssh"@ && words[1] == "-o"@ && words[2] == "BatchMode=yes"@
            &&& words.last() == "--"@
            &&& destination matches SshDestination::Known { host } ==> words[words.len() - 2]
                == host@
            &&& destination matches SshDestination::Rented { host, port, user } ==> words[words.len()
                - 2] == user@ + "@"@ + host@ && words[words.len() - 4] == "-p"@ && words[words.len()
                - 3] == crate::text::decimal_text(port as nat)
            &&& host_of(destination) == (match destination {
                SshDestination::Known { host } => host@,
                SshDestination::Rented { host, .. } => host@,
            })
        }),
{
}

} // verus!
