//! Taking a payload in: the walk that finds its files and the refusals it
//! makes on the way.
//!
//! A walk looks at one path after the other. What it finds there is told to it;
//! a directory's children are then visited in the order of their names' bytes,
//! each directory whole before what follows it.
use vstd::prelude::*;
use vstd::string::*;

use crate::fault::Fault;
use crate::ordered::{bytes_come_before, sort, Sortable};
use crate::payload::{FileEntry, Manifest};
use crate::program_tree::{join_path, runs};
use crate::text::{cat3, decimal};

verus! {

// ---- What is refused -------------------------------------------------------------------------

/// What an entry without a usable name is refused with.
pub open spec fn unnamed_text(shown: Seq<char>) -> Seq<char> {
    "payload entry "@ + shown
        + " has no name a manifest can carry; a payload's file names are UTF-8"@
}

/// The refusal of an entry whose name is not UTF-8, shown as `shown`.
pub fn unnamed(shown: &str) -> (fault: Fault)
    ensures
        fault@ == crate::fault::Complaint::Validation(unnamed_text(shown@)),
{
    Fault::Validation(
        cat3(
            "payload entry ",
            shown,
            " has no name a manifest can carry; a payload's file names are UTF-8",
        ),
    )
}

/// What a file at `place` is refused with, where it is: anything that is not a
/// regular file, and anything above the `cap` on a transferred object.
pub open spec fn file_refusal(place: Seq<char>, regular: bool, len: u64, cap: u32) -> Option<
    Seq<char>,
> {
    if !regular {
        Some(
            "payload entry "@ + place
                + " is not a regular file; a payload carries files and directories, and what a link points at is this machine's alone"@,
        )
    } else if len > cap {
        Some(
            "payload entry "@ + place + " is "@ + crate::text::decimal_text(len as nat)
                + " bytes, above the "@ + crate::text::decimal_text(cap as nat)
                + " byte cap a transferred object may reach"@,
        )
    } else {
        None
    }
}

/// Refuses what cannot travel as a file of a payload.
pub fn check_file(place: &str, regular: bool, len: u64, cap: u32) -> (r: Result<(), Fault>)
    ensures
        match file_refusal(place@, regular, len, cap) {
            Some(text) => r matches Err(fault) && fault@ == crate::fault::Complaint::Validation(
                text,
            ),
            None => r is Ok,
        },
{
    if !regular {
        return Err(
            Fault::Validation(
                cat3(
                    "payload entry ",
                    place,
                    " is not a regular file; a payload carries files and directories, and what a link points at is this machine's alone",
                ),
            ),
        );
    }
    if len > cap as u64 {
        let mut out: String = cat3("payload entry ", place, " is ");
        let held: String = decimal(len);
        out.append(held.as_str());
        out.append(" bytes, above the ");
        let most: String = decimal(cap as u64);
        out.append(most.as_str());
        out.append(" byte cap a transferred object may reach");
        return Err(Fault::Validation(out));
    }
    Ok(())
}

/// A file travels exactly where it is a regular one and no larger than the cap;
/// the cap itself may be reached.
pub proof fn a_regular_file_within_the_cap_travels(
    place: Seq<char>,
    regular: bool,
    len: u64,
    cap: u32,
)
    ensures
        file_refusal(place, regular, len, cap) is None <==> regular && len <= cap,
{
}

/// What a script that is not UTF-8 is refused with.
pub open spec fn script_refusal(path: Seq<char>, why: Seq<char>) -> Seq<char> {
    "install script "@ + path + " is not UTF-8: "@ + why
}

/// The refusal of an install script that is not UTF-8.
pub fn unreadable_script(path: &str, why: &str) -> (fault: Fault)
    ensures
        fault@ == crate::fault::Complaint::Validation(script_refusal(path@, why@)),
{
    let mut out: String = cat3("install script ", path, " is not UTF-8: ");
    out.append(why);
    Fault::Validation(out)
}

// ---- Children --------------------------------------------------------------------------------

/// One thing a directory lists.
#[derive(Debug, Clone, PartialEq, Eq)]
pub struct Child {
    /// The bytes of its name, by which a directory is put in order.
    pub bytes: Vec<u8>,
    /// Its name, where the bytes are UTF-8.
    pub name: Option<String>,
    /// Its path, as it is shown.
    pub shown: String,
}

impl Sortable for Child {
    open spec fn stands_before(self, other: Child) -> bool {
        crate::ordered::bytes_before(self.bytes@, other.bytes@)
    }

    proof fn stands_before_is_irreflexive(a: Child) {
        crate::ordered::bytes_before_is_irreflexive(a.bytes@);
    }

    proof fn stands_before_is_transitive(a: Child, b: Child, c: Child) {
        crate::ordered::bytes_before_is_transitive(a.bytes@, b.bytes@, c.bytes@);
    }

    fn goes_before(&self, other: &Child) -> (r: bool) {
        bytes_come_before(self.bytes.as_slice(), other.bytes.as_slice())
    }
}

// ---- Where a child stands ----------------------------------------------------------------------

/// The path inside the payload of `name` in the directory at `prefix`.
pub open spec fn child_path_of(prefix: Seq<char>, name: Seq<char>) -> Seq<char> {
    if prefix.len() == 0 {
        name
    } else {
        prefix + "/"@ + name
    }
}

/// The path inside the payload of `name` in the directory at `prefix`, which is
/// empty at the root.
pub fn child_path(prefix: &str, name: &str) -> (out: String)
    ensures
        out@ == child_path_of(prefix@, name@),
{
    if prefix.unicode_len() == 0 {
        name.to_owned()
    } else {
        cat3(prefix, "/", name)
    }
}

proof fn lemma_pieces_of_a_name(name: Seq<char>)
    requires
        forall|i: int| 0 <= i < name.len() ==> name[i] != '/',
    ensures
        crate::text::pieces(name, '/') == seq![name],
    decreases name.len(),
{
    if name.len() > 0 {
        let fewer = name.drop_last();
        assert forall|i: int| 0 <= i < fewer.len() implies fewer[i] != '/' by {
            assert(fewer[i] == name[i]);
        }
        lemma_pieces_of_a_name(fewer);
        assert(name.last() == name[name.len() - 1]);
        assert(fewer.push(name.last()) =~= name);
        assert(crate::text::pieces(name, '/') =~= seq![name]);
    } else {
        assert(name =~= Seq::<char>::empty());
        assert(crate::text::pieces(name, '/') =~= seq![name]);
    }
}

proof fn lemma_pieces_below(prefix: Seq<char>, name: Seq<char>)
    requires
        forall|i: int| 0 <= i < name.len() ==> name[i] != '/',
    ensures
        crate::text::pieces(prefix + seq!['/'] + name, '/') == crate::text::pieces(
            prefix,
            '/',
        ).push(name),
    decreases name.len(),
{
    let whole = prefix + seq!['/'] + name;
    crate::text::pieces_are_never_none(prefix, '/');
    if name.len() == 0 {
        assert(whole.drop_last() =~= prefix);
        assert(whole.last() == '/');
        assert(name =~= Seq::<char>::empty());
    } else {
        let fewer = name.drop_last();
        assert forall|i: int| 0 <= i < fewer.len() implies fewer[i] != '/' by {
            assert(fewer[i] == name[i]);
        }
        lemma_pieces_below(prefix, fewer);
        assert(whole.drop_last() =~= prefix + seq!['/'] + fewer);
        assert(whole.last() == name[name.len() - 1]);
        let parts = crate::text::pieces(prefix, '/');
        assert(parts.push(fewer).drop_last() =~= parts);
        assert(fewer.push(name.last()) =~= name);
    }
}

/// A child of a directory with a portable path has a portable path, where its
/// name is one: no separator of any system, and neither of the names that mean
/// a directory elsewhere.
pub proof fn a_child_of_a_portable_path_is_portable(prefix: Seq<char>, name: Seq<char>)
    requires
        prefix.len() == 0 || crate::payload::is_portable(prefix),
        crate::payload::names_inside(name),
        forall|i: int| 0 <= i < name.len() ==> name[i] != '/' && name[i] != '\\',
    ensures
        crate::payload::is_portable(child_path_of(prefix, name)),
{
    reveal_strlit("/");
    assert("/"@ =~= seq!['/']);
    let path = child_path_of(prefix, name);
    if prefix.len() == 0 {
        lemma_pieces_of_a_name(name);
    } else {
        lemma_pieces_below(prefix, name);
        let parts = crate::payload::components(path);
        assert forall|i: int| 0 <= i < path.len() implies path[i] != '\\' by {
            if i < prefix.len() {
                assert(path[i] == prefix[i]);
            } else if i > prefix.len() {
                assert(path[i] == name[i - prefix.len() - 1]);
            }
        }
        assert forall|i: int| 0 <= i < parts.len() implies crate::payload::names_inside(
            #[trigger] parts[i],
        ) by {
            if i < parts.len() - 1 {
                assert(parts[i] == crate::payload::components(prefix)[i]);
            }
        }
    }
}

// ---- The walk --------------------------------------------------------------------------------

/// One thing still to be visited.
#[derive(Debug, Clone, PartialEq, Eq)]
pub enum Visit {
    /// What stands at `place`, under `path` inside the payload.
    Named { place: String, path: String },
    /// Something whose name no manifest can carry.
    Unnamed { shown: String },
}

/// The texts of a [`Visit`].
pub enum Spot {
    Named(Seq<char>, Seq<char>),
    Unnamed(Seq<char>),
}

impl View for Visit {
    type V = Spot;

    open spec fn view(&self) -> Spot {
        match self {
            Visit::Named { place, path } => Spot::Named(place@, path@),
            Visit::Unnamed { shown } => Spot::Unnamed(shown@),
        }
    }
}

/// A walk over a payload.
#[derive(Debug, Clone, PartialEq, Eq)]
pub struct Walk {
    /// What is still to be visited, the next one last.
    pub pending: Vec<Visit>,
    /// The files found so far.
    pub entries: Vec<FileEntry>,
    /// Whether the file being stored runs, while one is.
    pub storing: Option<bool>,
}

/// What a walk needs next.
#[derive(Debug, PartialEq, Eq)]
pub enum WalkAction<'a> {
    /// What stands at the place?
    Look(&'a str),
    /// Store the bytes of the file at the place.
    Store(&'a str),
    /// The walk ends here.
    Refuse(Fault),
    /// Every file was found.
    Done,
}

/// What a walk is told.
#[derive(Debug, Clone, PartialEq, Eq)]
pub enum Found {
    /// A directory, and what it lists.
    Directory(Vec<Child>),
    /// Anything else, and what is recorded of it.
    File { regular: bool, len: u64, mode: u32 },
    /// The file's bytes are stored under this digest.
    Stored(String),
}

/// The spot of `child` in the directory at `place`, under `path`.
pub open spec fn spot_of(place: Seq<char>, path: Seq<char>, child: Child) -> Spot {
    match child.name {
        Some(name) => Spot::Named(
            crate::program_tree::inside(place, name@),
            child_path_of(path, name@),
        ),
        None => Spot::Unnamed(child.shown@),
    }
}

/// The spots of pending visits.
pub open spec fn spots(pending: Seq<Visit>) -> Seq<Spot> {
    pending.map_values(|visit: Visit| visit@)
}

/// The spots of `sorted` children, the first of them last.
pub open spec fn spots_below(place: Seq<char>, path: Seq<char>, sorted: Seq<Child>) -> Seq<Spot> {
    Seq::new(sorted.len(), |i: int| spot_of(place, path, sorted[sorted.len() - 1 - i]))
}

/// What `found` makes of `before`, at the spot `place`, `path`.
pub open spec fn is_found(
    before: Walk,
    place: Seq<char>,
    path: String,
    found: Found,
    cap: u32,
    r: Result<Walk, Fault>,
) -> bool {
    match (found, before.storing) {
        (Found::Directory(children), None) => {
            &&& r matches Ok(after)
            &&& after.entries@ == before.entries@
            &&& after.storing is None
            &&& exists|sorted: Seq<Child>|
                #[trigger] crate::ordered::is_sorting(sorted, children@) && spots(after.pending@) == spots(
                    before.pending@.drop_last(),
                ) + spots_below(place, path@, sorted)
        },
        (Found::File { regular, len, mode }, None) => {
            match file_refusal(place, regular, len, cap) {
                Some(text) => r matches Err(fault) && fault@
                    == crate::fault::Complaint::Validation(text),
                None => {
                    &&& r matches Ok(after)
                    &&& after.pending@ == before.pending@
                    &&& after.entries@ == before.entries@
                    &&& after.storing == Some(mode & 0o111 != 0)
                },
            }
        },
        (Found::Stored(object), Some(executable)) => {
            &&& r matches Ok(after)
            &&& after.pending@ == before.pending@.drop_last()
            &&& after.entries@ == before.entries@.push(FileEntry { path, executable, object })
            &&& after.storing is None
        },
        _ => r == Ok::<Walk, Fault>(before),
    }
}

/// What `found` makes of a walk, told of its next visit.
pub open spec fn is_step(before: Walk, found: Found, cap: u32, r: Result<Walk, Fault>) -> bool {
    if before.pending@.len() == 0 {
        r == Ok::<Walk, Fault>(before)
    } else {
        match before.pending@.last() {
            Visit::Unnamed { .. } => r == Ok::<Walk, Fault>(before),
            Visit::Named { place, path } => is_found(before, place@, path, found, cap, r),
        }
    }
}

impl Walk {
    /// The walk over the directory `root`.
    pub fn of_directory(root: String) -> (walk: Walk)
        ensures
            walk.pending@.len() == 1,
            walk.pending@[0]@ == Spot::Named(root@, Seq::empty()),
            walk.entries@.len() == 0,
            walk.storing is None,
    {
        let path: String = "".to_owned();
        proof {
            reveal_strlit("");
            assert(path@ =~= Seq::<char>::empty());
        }
        Walk { pending: vec![Visit::Named { place: root, path }], entries: Vec::new(), storing: None }
    }

    /// The walk over the single file `root`, which keeps its own name.
    pub fn of_file(root: String, name: Option<String>) -> (walk: Walk)
        ensures
            walk.pending@.len() == 1,
            walk.pending@[0] == (match name {
                Some(name) => Visit::Named { place: root, path: name },
                None => Visit::Unnamed { shown: root },
            }),
            walk.entries@.len() == 0,
            walk.storing is None,
    {
        let visit: Visit = match name {
            Some(name) => Visit::Named { place: root, path: name },
            None => Visit::Unnamed { shown: root },
        };
        Walk { pending: vec![visit], entries: Vec::new(), storing: None }
    }

    /// What the walk needs next.
    pub fn next(&self) -> (action: WalkAction<'_>)
        ensures
            if self.pending@.len() == 0 {
                action is Done
            } else {
                match self.pending@.last() {
                    Visit::Unnamed { shown } => action matches WalkAction::Refuse(fault) && fault@
                        == crate::fault::Complaint::Validation(unnamed_text(shown@)),
                    Visit::Named { place, .. } => match self.storing {
                        None => action matches WalkAction::Look(at) && at@ == place@,
                        Some(_) => action matches WalkAction::Store(at) && at@ == place@,
                    },
                }
            },
    {
        let n: usize = self.pending.len();
        if n == 0 {
            return WalkAction::Done;
        }
        match &self.pending[n - 1] {
            Visit::Unnamed { shown } => WalkAction::Refuse(unnamed(shown.as_str())),
            Visit::Named { place, .. } => match self.storing {
                None => WalkAction::Look(place.as_str()),
                Some(_) => WalkAction::Store(place.as_str()),
            },
        }
    }

    /// The walk after `found` was told of the next visit. The `cap` is the most
    /// bytes a transferred object may have. What answers something else leaves
    /// the walk as it is.
    pub fn step(self, found: Found, cap: u32) -> (r: Result<Walk, Fault>)
        ensures
            is_step(self, found, cap, r),
    {
        let n: usize = self.pending.len();
        if n == 0 {
            return Ok(self);
        }
        let (place, path): (String, String) = match &self.pending[n - 1] {
            Visit::Unnamed { .. } => return Ok(self),
            Visit::Named { place, path } => (place.clone(), path.clone()),
        };
        match (found, self.storing) {
            (Found::Directory(children), None) => {
                let ghost listed = children@;
                let sorted: Vec<Child> = sort(children);
                let mut pending: Vec<Visit> = self.pending;
                let ghost was = pending@;
                let _ = pending.pop();
                let ghost base = pending@;
                proof {
                    assert(base =~= was.drop_last());
                    assert(spots(pending@) =~= spots(base) + spots_below(
                        place@,
                        path@,
                        sorted@,
                    ).take(0));
                }
                let mut left: usize = sorted.len();
                while left > 0
                    invariant
                        left <= sorted@.len(),
                        spots(pending@) == spots(base) + spots_below(place@, path@, sorted@).take(
                            sorted@.len() - left,
                        ),
                    decreases left,
                {
                    let ghost done = pending@;
                    let ghost below = spots_below(place@, path@, sorted@);
                    left = left - 1;
                    let visit: Visit = match &sorted[left].name {
                        Some(name) => Visit::Named {
                            place: join_path(place.as_str(), name.as_str()),
                            path: child_path(path.as_str(), name.as_str()),
                        },
                        None => Visit::Unnamed { shown: sorted[left].shown.clone() },
                    };
                    proof {
                        assert(visit@ == spot_of(place@, path@, sorted@[left as int]));
                        assert(below[sorted@.len() - 1 - left] == visit@);
                        assert(below.take(sorted@.len() - left) =~= below.take(
                            sorted@.len() - 1 - left,
                        ).push(visit@));
                    }
                    pending.push(visit);
                    proof {
                        assert(spots(pending@) =~= spots(done).push(visit@));
                        assert(spots(base) + below.take(sorted@.len() - left) =~= (spots(base)
                            + below.take(sorted@.len() - 1 - left)).push(visit@));
                    }
                }
                proof {
                    let below = spots_below(place@, path@, sorted@);
                    assert(below.take(sorted@.len() as int) =~= below);
                    assert(crate::ordered::is_sorting(sorted@, listed));
                }
                Ok(Walk { pending, entries: self.entries, storing: None })
            },
            (Found::File { regular, len, mode }, None) => {
                match check_file(place.as_str(), regular, len, cap) {
                    Err(fault) => Err(fault),
                    Ok(_) => Ok(
                        Walk {
                            pending: self.pending,
                            entries: self.entries,
                            storing: Some(runs(mode)),
                        },
                    ),
                }
            },
            (Found::Stored(object), Some(executable)) => {
                let mut pending: Vec<Visit> = self.pending;
                let ghost was = pending@;
                let _ = pending.pop();
                proof {
                    assert(pending@ =~= was.drop_last());
                }
                let mut entries: Vec<FileEntry> = self.entries;
                entries.push(FileEntry { path, executable, object });
                Ok(Walk { pending, entries, storing: None })
            },
            _ => Ok(self),
        }
    }

    /// The manifest of what the walk over `root` found, with the text of the
    /// install script. A directory that holds no file is refused.
    pub fn finish(self, root: &str, install: Option<String>) -> (r: Result<Manifest, Fault>)
        ensures
            if self.entries@.len() == 0 {
                r matches Err(fault) && fault@ == crate::fault::Complaint::Validation(
                    "payload "@ + root@ + " holds no file"@,
                )
            } else {
                exists|sorted: Seq<FileEntry>|
                    #![trigger crate::ordered::is_sorting(sorted, self.entries@)]
                    crate::ordered::is_sorting(sorted, self.entries@)
                        && crate::payload::manifest_outcome(r, sorted, install)
            },
            r matches Ok(manifest) ==> manifest.wf(),
    {
        if self.entries.len() == 0 {
            return Err(Fault::Validation(cat3("payload ", root, " holds no file")));
        }
        Manifest::new(self.entries, install)
    }
}

// ---- A whole walk ------------------------------------------------------------------------------

/// Whether the file at `file` is the one at `path`, or stands below it.
/// Everything stands below the root, whose path is empty.
pub open spec fn covers(path: Seq<char>, file: Seq<char>) -> bool {
    ||| path.len() == 0
    ||| file == path
    ||| path.len() < file.len() && file.take(path.len() as int) == path && file[path.len() as int]
        == '/'
}

/// Whether a name is one a directory can list.
pub open spec fn is_name(name: Seq<char>) -> bool {
    name.len() > 0 && forall|i: int| 0 <= i < name.len() ==> name[i] != '/'
}

/// Whether a child of the directory at `path` is the file, or leads to it.
pub open spec fn leads_to(path: Seq<char>, child: Child, file: Seq<char>) -> bool {
    child.name matches Some(name) && covers(child_path_of(path, name@), file)
}

/// Whether `children` is what the directory at `path` lists, in any order: it is
/// no file, it lists nothing twice, and every file below it is listed, or stands
/// below something that is.
pub open spec fn is_listing(
    files: Map<Seq<char>, (bool, Seq<char>)>,
    path: Seq<char>,
    children: Seq<Child>,
) -> bool {
    &&& children.no_duplicates()
    &&& forall|i: int|
        0 <= i < children.len() ==> ((#[trigger] children[i]).name matches Some(name) ==> is_name(
            name@,
        ))
    &&& forall|i: int, j: int|
        #![trigger children[i], children[j]]
        0 <= i < j < children.len() && children[i].name is Some && children[j].name is Some
            ==> children[i].name->0@ != children[j].name->0@
    &&& forall|file: Seq<char>| #[trigger]
        files.dom().contains(file) && covers(path, file) ==> exists|i: int|
            0 <= i < children.len() && leads_to(path, #[trigger] children[i], file)
}

/// Whether what a walk is told of its next visit is so of the tree with these
/// files.
pub open spec fn is_so(walk: Walk, found: Found, files: Map<Seq<char>, (bool, Seq<char>)>) -> bool {
    walk.pending@.len() > 0 ==> (walk.pending@.last()@ matches Spot::Named(_, path) ==> match found {
        Found::Directory(children) => is_listing(files, path, children@),
        Found::File { regular, len, mode } => {
            &&& files.dom().contains(path)
            &&& files[path].0 == (mode & 0o111 != 0)
            &&& forall|file: Seq<char>| #[trigger]
                files.dom().contains(file) && covers(path, file) ==> file == path
        },
        Found::Stored(object) => files[path].1 == object@,
    })
}

/// Whether being told `founds`, one after another and each of them so of the
/// tree, leads from one walk to another.
pub open spec fn walks_to(
    from: Walk,
    founds: Seq<Found>,
    cap: u32,
    to: Walk,
    files: Map<Seq<char>, (bool, Seq<char>)>,
) -> bool
    decreases founds.len(),
{
    if founds.len() == 0 {
        from == to
    } else {
        exists|before: Walk|
            #![trigger is_step(before, founds.last(), cap, Ok::<Walk, Fault>(to))]
            walks_to(from, founds.drop_last(), cap, before, files) && is_step(
                before,
                founds.last(),
                cap,
                Ok::<Walk, Fault>(to),
            ) && is_so(before, founds.last(), files)
    }
}

/// Whether a walk is at the beginning of the tree with these files.
pub open spec fn is_beginning(walk: Walk, files: Map<Seq<char>, (bool, Seq<char>)>) -> bool {
    &&& walk.pending@.len() == 1
    &&& walk.entries@.len() == 0
    &&& walk.storing is None
    &&& walk.pending@[0]@ matches Spot::Named(_, path)
    &&& forall|file: Seq<char>| #[trigger] files.dom().contains(file) ==> covers(path, file)
}

/// Whether a spot is the file, or leads to it.
spec fn spot_covers(spot: Spot, file: Seq<char>) -> bool {
    spot matches Spot::Named(_, path) && covers(path, file)
}

/// What holds between a walk and the tree it goes over: what it found is so, and
/// every file of the tree was found or is still led to, by one spot.
spec fn is_within(
    spots: Seq<Spot>,
    entries: Seq<FileEntry>,
    files: Map<Seq<char>, (bool, Seq<char>)>,
) -> bool {
    &&& forall|i: int|
        0 <= i < entries.len() ==> crate::payload::is_file_of(#[trigger] entries[i], files)
    &&& forall|i: int, j: int|
        #![trigger entries[i], entries[j]]
        0 <= i < j < entries.len() ==> entries[i].path@ != entries[j].path@
    &&& forall|k: int, i: int|
        #![trigger spots[k], entries[i]]
        0 <= k < spots.len() && 0 <= i < entries.len() ==> !spot_covers(spots[k], entries[i].path@)
    &&& forall|k: int, l: int, file: Seq<char>|
        #![trigger spot_covers(spots[k], file), spot_covers(spots[l], file)]
        0 <= k < l < spots.len() && files.dom().contains(file) && spot_covers(spots[k], file)
            ==> !spot_covers(spots[l], file)
    &&& forall|file: Seq<char>| #[trigger]
        files.dom().contains(file) ==> is_reached(spots, entries, file)
}

/// Whether a file was found, or is still led to.
spec fn is_reached(spots: Seq<Spot>, entries: Seq<FileEntry>, file: Seq<char>) -> bool {
    ||| exists|i: int| 0 <= i < entries.len() && (#[trigger] entries[i]).path@ == file
    ||| exists|k: int| 0 <= k < spots.len() && spot_covers(#[trigger] spots[k], file)
}

/// What holds of a walk while the file of its next visit is being stored.
spec fn is_storing(walk: Walk, files: Map<Seq<char>, (bool, Seq<char>)>) -> bool {
    walk.storing matches Some(executable) ==> {
        &&& walk.pending@.len() > 0
        &&& walk.pending@.last()@ matches Spot::Named(_, path)
        &&& files.dom().contains(path)
        &&& files[path].0 == executable
        &&& forall|file: Seq<char>| #[trigger]
            files.dom().contains(file) && covers(path, file) ==> file == path
    }
}

proof fn lemma_below_is_covered(path: Seq<char>, name: Seq<char>, file: Seq<char>)
    requires
        is_name(name),
        covers(child_path_of(path, name), file),
    ensures
        covers(path, file),
{
    reveal_strlit("/");
    let child = child_path_of(path, name);
    if path.len() > 0 {
        assert(child.len() > path.len());
        assert(child.take(path.len() as int) =~= path);
        assert(child[path.len() as int] == '/');
        if file != child {
            assert(file.take(child.len() as int) == child);
            assert(file.take(path.len() as int) =~= child.take(path.len() as int)) by {
                assert forall|i: int| 0 <= i < path.len() implies file[i] == child[i] by {
                    assert(file.take(child.len() as int)[i] == file[i]);
                }
            }
            assert(file.take(child.len() as int)[path.len() as int] == file[path.len() as int]);
        }
    }
}

proof fn lemma_siblings_part(path: Seq<char>, a: Seq<char>, b: Seq<char>, file: Seq<char>)
    requires
        is_name(a),
        is_name(b),
        covers(child_path_of(path, a), file),
        covers(child_path_of(path, b), file),
        a.len() <= b.len(),
    ensures
        a == b,
{
    reveal_strlit("/");
    let x = child_path_of(path, a);
    let y = child_path_of(path, b);
    let base: int = if path.len() == 0 {
        0
    } else {
        (path.len() + 1) as int
    };
    assert(x.len() == base + a.len() && y.len() == base + b.len());
    assert forall|i: int| 0 <= i < x.len() implies file[i] == x[i] by {
        if file != x {
            assert(file.take(x.len() as int)[i] == file[i]);
        }
    }
    assert forall|i: int| 0 <= i < y.len() implies file[i] == y[i] by {
        if file != y {
            assert(file.take(y.len() as int)[i] == file[i]);
        }
    }
    if a.len() < b.len() {
        assert(file.len() >= y.len());
        assert(file != x);
        assert(file[x.len() as int] == '/');
        assert(y[x.len() as int] == b[a.len() as int]);
    }
    assert forall|i: int| 0 <= i < a.len() implies a[i] == b[i] by {
        assert(x[base + i] == a[i]);
        assert(y[base + i] == b[i]);
    }
    assert(a =~= b);
}

/// Two names a directory lists lead to one file only where they are the same.
proof fn lemma_siblings(path: Seq<char>, a: Seq<char>, b: Seq<char>, file: Seq<char>)
    requires
        is_name(a),
        is_name(b),
        covers(child_path_of(path, a), file),
        covers(child_path_of(path, b), file),
    ensures
        a == b,
{
    if a.len() <= b.len() {
        lemma_siblings_part(path, a, b, file);
    } else {
        lemma_siblings_part(path, b, a, file);
    }
}

/// Sorting what a directory lists leaves it a listing.
proof fn lemma_sorted_listing(
    files: Map<Seq<char>, (bool, Seq<char>)>,
    path: Seq<char>,
    children: Seq<Child>,
    sorted: Seq<Child>,
)
    requires
        is_listing(files, path, children),
        sorted.to_multiset() == children.to_multiset(),
    ensures
        is_listing(files, path, sorted),
{
    broadcast use vstd::seq_lib::group_to_multiset_ensures;

    children.to_multiset_ensures();
    sorted.to_multiset_ensures();
    assert forall|c: Child| #[trigger] children.contains(c) == sorted.contains(c) by {
        assert(children.contains(c) == (children.to_multiset().count(c) > 0));
        assert(sorted.contains(c) == (sorted.to_multiset().count(c) > 0));
    }
    children.lemma_multiset_has_no_duplicates();
    sorted.lemma_multiset_has_no_duplicates_conv();
    assert forall|i: int| 0 <= i < sorted.len() implies ((
    #[trigger] sorted[i]).name matches Some(name) ==> is_name(name@)) by {
        assert(sorted.contains(sorted[i]));
        assert(children.contains(sorted[i]));
    }
    assert forall|i: int, j: int|
        #![trigger sorted[i], sorted[j]]
        0 <= i < j < sorted.len() && sorted[i].name is Some
            && sorted[j].name is Some implies sorted[i].name->0@ != sorted[j].name->0@ by {
        assert(sorted.contains(sorted[i]) && sorted.contains(sorted[j]));
        assert(children.contains(sorted[i]) && children.contains(sorted[j]));
        let k = choose|k: int| 0 <= k < children.len() && children[k] == sorted[i];
        let l = choose|l: int| 0 <= l < children.len() && children[l] == sorted[j];
        assert(sorted[i] != sorted[j]);
        if k < l {
            assert(children[k].name->0@ != children[l].name->0@);
        } else {
            assert(children[l].name->0@ != children[k].name->0@);
        }
    }
    assert forall|file: Seq<char>| #[trigger]
        files.dom().contains(file) && covers(path, file) implies exists|i: int|
        0 <= i < sorted.len() && leads_to(path, #[trigger] sorted[i], file) by {
        let k = choose|k: int|
            0 <= k < children.len() && leads_to(path, #[trigger] children[k], file);
        assert(children.contains(children[k]));
        assert(sorted.contains(children[k]));
        let i = choose|i: int| 0 <= i < sorted.len() && sorted[i] == children[k];
        assert(leads_to(path, sorted[i], file));
    }
}

/// A directory replaced by what it lists leaves the walk within its tree.
proof fn lemma_open_directory(
    rest: Seq<Spot>,
    place: Seq<char>,
    path: Seq<char>,
    sorted: Seq<Child>,
    entries: Seq<FileEntry>,
    files: Map<Seq<char>, (bool, Seq<char>)>,
)
    requires
        is_within(rest.push(Spot::Named(place, path)), entries, files),
        is_listing(files, path, sorted),
    ensures
        is_within(rest + spots_below(place, path, sorted), entries, files),
{
    let top = Spot::Named(place, path);
    let was = rest.push(top);
    let n = rest.len() as int;
    let below = spots_below(place, path, sorted);
    let now = rest + below;
    assert(was[n] == top);
    assert forall|k: int, file: Seq<char>|
        n <= k < now.len() && #[trigger] spot_covers(now[k], file) implies spot_covers(
        top,
        file,
    ) by {
        let child = sorted[sorted.len() - 1 - (k - n)];
        assert(now[k] == spot_of(place, path, child));
        lemma_below_is_covered(path, child.name->0@, file);
    }
    assert forall|k: int, i: int|
        #![trigger now[k], entries[i]]
        0 <= k < now.len() && 0 <= i < entries.len() implies !spot_covers(
        now[k],
        entries[i].path@,
    ) by {
        if k < n {
            assert(now[k] == was[k]);
        } else {
            assert(!spot_covers(was[n], entries[i].path@));
        }
    }
    assert forall|k: int, l: int, file: Seq<char>|
        #![trigger spot_covers(now[k], file), spot_covers(now[l], file)]
        0 <= k < l < now.len() && files.dom().contains(file) && spot_covers(
            now[k],
            file,
        ) implies !spot_covers(now[l], file) by {
        if spot_covers(now[l], file) {
            if k < n {
                assert(now[k] == was[k]);
                assert(spot_covers(was[k], file));
                if l < n {
                    assert(now[l] == was[l]);
                    assert(spot_covers(was[l], file));
                } else {
                    assert(spot_covers(was[n], file));
                }
            } else {
                let x: int = sorted.len() - 1 - (k - n);
                let y: int = sorted.len() - 1 - (l - n);
                assert(now[k] == spot_of(place, path, sorted[x]));
                assert(now[l] == spot_of(place, path, sorted[y]));
                lemma_siblings(path, sorted[x].name->0@, sorted[y].name->0@, file);
                assert(sorted[y].name->0@ != sorted[x].name->0@);
            }
        }
    }
    assert forall|file: Seq<char>| #[trigger] files.dom().contains(file) implies is_reached(
        now,
        entries,
        file,
    ) by {
        assert(is_reached(was, entries, file));
        if !(exists|i: int| 0 <= i < entries.len() && (#[trigger] entries[i]).path@ == file) {
            let k = choose|k: int| 0 <= k < was.len() && spot_covers(#[trigger] was[k], file);
            if k < n {
                assert(now[k] == was[k]);
            } else {
                let i = choose|i: int|
                    0 <= i < sorted.len() && leads_to(path, #[trigger] sorted[i], file);
                let at: int = n + (sorted.len() - 1 - i);
                assert(now[at] == spot_of(place, path, sorted[i]));
                assert(spot_covers(now[at], file));
            }
        }
    }
}

/// A file that was stored is found, and led to no more.
proof fn lemma_close_file(
    rest: Seq<Spot>,
    place: Seq<char>,
    entry: FileEntry,
    entries: Seq<FileEntry>,
    files: Map<Seq<char>, (bool, Seq<char>)>,
)
    requires
        is_within(rest.push(Spot::Named(place, entry.path@)), entries, files),
        crate::payload::is_file_of(entry, files),
        forall|file: Seq<char>| #[trigger]
            files.dom().contains(file) && covers(entry.path@, file) ==> file == entry.path@,
    ensures
        is_within(rest, entries.push(entry), files),
{
    let was = rest.push(Spot::Named(place, entry.path@));
    let n = rest.len() as int;
    let now = entries.push(entry);
    assert(was[n] == Spot::Named(place, entry.path@));
    assert(spot_covers(was[n], entry.path@));
    assert forall|i: int| 0 <= i < now.len() implies crate::payload::is_file_of(
        #[trigger] now[i],
        files,
    ) by {
        if i < entries.len() {
            assert(now[i] == entries[i]);
        }
    }
    assert forall|i: int, j: int|
        #![trigger now[i], now[j]]
        0 <= i < j < now.len() implies now[i].path@ != now[j].path@ by {
        assert(now[i] == entries[i]);
        if j < entries.len() {
            assert(now[j] == entries[j]);
        } else {
            assert(!spot_covers(was[n], entries[i].path@));
        }
    }
    assert forall|k: int, i: int|
        #![trigger rest[k], now[i]]
        0 <= k < rest.len() && 0 <= i < now.len() implies !spot_covers(rest[k], now[i].path@) by {
        assert(rest[k] == was[k]);
        if i < entries.len() {
            assert(now[i] == entries[i]);
            assert(!spot_covers(was[k], entries[i].path@));
        } else if spot_covers(was[k], entry.path@) {
            assert(!spot_covers(was[n], entry.path@));
        }
    }
    assert forall|k: int, l: int, file: Seq<char>|
        #![trigger spot_covers(rest[k], file), spot_covers(rest[l], file)]
        0 <= k < l < rest.len() && files.dom().contains(file) && spot_covers(
            rest[k],
            file,
        ) implies !spot_covers(rest[l], file) by {
        assert(rest[k] == was[k] && rest[l] == was[l]);
        assert(spot_covers(was[k], file));
    }
    assert forall|file: Seq<char>| #[trigger] files.dom().contains(file) implies is_reached(
        rest,
        now,
        file,
    ) by {
        assert(is_reached(was, entries, file));
        if exists|i: int| 0 <= i < entries.len() && (#[trigger] entries[i]).path@ == file {
            let i = choose|i: int| 0 <= i < entries.len() && (#[trigger] entries[i]).path@ == file;
            assert(now[i].path@ == file);
        } else {
            let k = choose|k: int| 0 <= k < was.len() && spot_covers(#[trigger] was[k], file);
            if k < n {
                assert(rest[k] == was[k]);
            } else {
                assert(covers(entry.path@, file));
                assert(now[entries.len() as int].path@ == file);
            }
        }
    }
}

proof fn lemma_step_stays_within(
    before: Walk,
    found: Found,
    cap: u32,
    after: Walk,
    files: Map<Seq<char>, (bool, Seq<char>)>,
)
    requires
        is_within(spots(before.pending@), before.entries@, files),
        is_storing(before, files),
        is_step(before, found, cap, Ok::<Walk, Fault>(after)),
        is_so(before, found, files),
    ensures
        is_within(spots(after.pending@), after.entries@, files),
        is_storing(after, files),
{
    if before.pending@.len() > 0 {
        if let Visit::Named { place, path } = before.pending@.last() {
            let rest = spots(before.pending@.drop_last());
            let top = Spot::Named(place@, path@);
            assert(before.pending@.last()@ == top);
            assert(spots(before.pending@) =~= rest.push(top));
            match (found, before.storing) {
                (Found::Directory(children), None) => {
                    let sorted = choose|sorted: Seq<Child>|
                        #[trigger] crate::ordered::is_sorting(sorted, children@) && spots(after.pending@)
                            == spots(before.pending@.drop_last()) + spots_below(
                            place@,
                            path@,
                            sorted,
                        );
                    lemma_sorted_listing(files, path@, children@, sorted);
                    lemma_open_directory(rest, place@, path@, sorted, before.entries@, files);
                },
                (Found::File { regular, len, mode }, None) => {},
                (Found::Stored(object), Some(executable)) => {
                    let entry = FileEntry { path, executable, object };
                    lemma_close_file(rest, place@, entry, before.entries@, files);
                },
                _ => {},
            }
        }
    }
}

proof fn lemma_walk_stays_within(
    from: Walk,
    founds: Seq<Found>,
    cap: u32,
    to: Walk,
    files: Map<Seq<char>, (bool, Seq<char>)>,
)
    requires
        is_beginning(from, files),
        walks_to(from, founds, cap, to, files),
    ensures
        is_within(spots(to.pending@), to.entries@, files),
        is_storing(to, files),
    decreases founds.len(),
{
    if founds.len() == 0 {
        let all = spots(to.pending@);
        assert(all[0] == to.pending@[0]@);
        assert forall|file: Seq<char>| #[trigger] files.dom().contains(file) implies is_reached(
            all,
            to.entries@,
            file,
        ) by {
            assert(spot_covers(all[0], file));
        }
    } else {
        let before = choose|before: Walk|
            #![trigger is_step(before, founds.last(), cap, Ok::<Walk, Fault>(to))]
            walks_to(from, founds.drop_last(), cap, before, files) && is_step(
                before,
                founds.last(),
                cap,
                Ok::<Walk, Fault>(to),
            ) && is_so(before, founds.last(), files);
        lemma_walk_stays_within(from, founds.drop_last(), cap, before, files);
        lemma_step_stays_within(before, founds.last(), cap, to, files);
    }
}

/// A walk that ends has found the files of its tree, every one and each once,
/// with its execute bit and what its bytes are stored under, in whatever order
/// the directories listed what they hold.
pub proof fn a_walk_finds_its_tree(
    from: Walk,
    founds: Seq<Found>,
    cap: u32,
    to: Walk,
    files: Map<Seq<char>, (bool, Seq<char>)>,
)
    requires
        is_beginning(from, files),
        walks_to(from, founds, cap, to, files),
        to.pending@.len() == 0,
    ensures
        crate::payload::is_files_of(to.entries@, files),
{
    lemma_walk_stays_within(from, founds, cap, to, files);
    assert forall|path: Seq<char>| #[trigger] files.dom().contains(path) implies exists|i: int|
        0 <= i < to.entries@.len() && (#[trigger] to.entries@[i]).path@ == path by {
        assert(is_reached(spots(to.pending@), to.entries@, path));
    }
}

/// Whether `manifest` is what a walk over the tree with these files comes to,
/// with the script.
pub open spec fn takes_in(
    from: Walk,
    founds: Seq<Found>,
    cap: u32,
    to: Walk,
    files: Map<Seq<char>, (bool, Seq<char>)>,
    install: Option<String>,
    manifest: Manifest,
) -> bool {
    &&& is_beginning(from, files)
    &&& walks_to(from, founds, cap, to, files)
    &&& to.pending@.len() == 0
    &&& manifest.wf()
    &&& exists|sorted: Seq<FileEntry>|
        #![trigger crate::ordered::is_sorting(sorted, to.entries@)]
        crate::ordered::is_sorting(sorted, to.entries@) && crate::payload::manifest_outcome(
            Ok::<Manifest, Fault>(manifest),
            sorted,
            install,
        )
}

/// The manifest that taking a tree in comes to names exactly the tree's files.
pub proof fn what_is_taken_in_is_the_tree(
    from: Walk,
    founds: Seq<Found>,
    cap: u32,
    to: Walk,
    files: Map<Seq<char>, (bool, Seq<char>)>,
    install: Option<String>,
    manifest: Manifest,
)
    requires
        takes_in(from, founds, cap, to, files, install, manifest),
    ensures
        crate::payload::is_files_of(manifest.entries@, files),
        manifest.install == install,
{
    a_walk_finds_its_tree(from, founds, cap, to, files);
    let sorted = choose|sorted: Seq<FileEntry>|
        #![trigger crate::ordered::is_sorting(sorted, to.entries@)]
        crate::ordered::is_sorting(sorted, to.entries@) && crate::payload::manifest_outcome(
            Ok::<Manifest, Fault>(manifest),
            sorted,
            install,
        );
    crate::payload::files_in_any_order_are_the_tree(to.entries@, sorted, files);
}

/// Two trees that are taken in are written alike exactly where they are the same
/// tree with the same script, however often each was walked and in whatever
/// order its directories listed what they hold. What is written names the
/// payload, so one tree has one digest, and the digest moves with a path, with
/// the bytes of a file, with an execute bit, and with the script.
pub proof fn a_payload_is_named_by_its_tree_and_script(
    a_from: Walk,
    a_founds: Seq<Found>,
    a_to: Walk,
    a_files: Map<Seq<char>, (bool, Seq<char>)>,
    a_install: Option<String>,
    a: Manifest,
    a_fields: Seq<crate::payload::Field>,
    b_from: Walk,
    b_founds: Seq<Found>,
    b_to: Walk,
    b_files: Map<Seq<char>, (bool, Seq<char>)>,
    b_install: Option<String>,
    b: Manifest,
    b_fields: Seq<crate::payload::Field>,
    cap: u32,
)
    requires
        takes_in(a_from, a_founds, cap, a_to, a_files, a_install, a),
        takes_in(b_from, b_founds, cap, b_to, b_files, b_install, b),
        crate::payload::is_written(a_fields, a.entries@, a.install),
        crate::payload::is_written(b_fields, b.entries@, b.install),
    ensures
        crate::payload::written_alike(a_fields, b_fields) <==> a_files == b_files
            && crate::payload::script_text(a_install) == crate::payload::script_text(b_install),
{
    what_is_taken_in_is_the_tree(a_from, a_founds, cap, a_to, a_files, a_install, a);
    what_is_taken_in_is_the_tree(b_from, b_founds, cap, b_to, b_files, b_install, b);
    crate::payload::a_tree_and_its_script_are_what_is_written(
        a,
        a_files,
        a_fields,
        b,
        b_files,
        b_fields,
    );
}

/// A tree that is taken in, written, read back, and materialized is the tree it
/// was: its files and no other, each at its path, with its bytes and its execute
/// bit.
pub proof fn a_tree_comes_back_as_it_was(
    from: Walk,
    founds: Seq<Found>,
    cap: u32,
    to: Walk,
    files: Map<Seq<char>, (bool, Seq<char>)>,
    install: Option<String>,
    manifest: Manifest,
    fields: Seq<crate::payload::Field>,
    back: Manifest,
    dest: Seq<char>,
    placements: Seq<crate::program_tree::Placement>,
)
    requires
        takes_in(from, founds, cap, to, files, install, manifest),
        crate::payload::is_written(fields, manifest.entries@, manifest.install),
        exists|entries: Seq<FileEntry>, script: Option<String>|
            #![trigger crate::payload::is_written(fields, entries, script)]
            crate::payload::is_written(fields, entries, script) && crate::payload::decode_outcome(
                Ok::<Manifest, Fault>(back),
                entries,
                script,
            ),
        placements.len() == back.entries@.len(),
        forall|i: int|
            0 <= i < placements.len() ==> crate::program_tree::places(
                #[trigger] placements[i],
                back.entries@[i],
                dest,
            ),
    ensures
        back.install == install,
        forall|path: Seq<char>| #[trigger]
            files.dom().contains(path) ==> exists|i: int|
                0 <= i < placements.len() && crate::program_tree::restores(
                    #[trigger] placements[i],
                    dest,
                    path,
                    files,
                ),
        forall|i: int|
            0 <= i < placements.len() ==> crate::program_tree::restores_one_of(
                #[trigger] placements[i],
                dest,
                files,
            ),
        forall|i: int, j: int|
            #![trigger placements[i], placements[j]]
            0 <= i < j < placements.len() ==> placements[i].path@ != placements[j].path@,
{
    what_is_taken_in_is_the_tree(from, founds, cap, to, files, install, manifest);
    crate::payload::a_manifest_reads_back(manifest, fields, Ok::<Manifest, Fault>(back));
    crate::program_tree::what_is_materialized_is_the_tree(back, files, dest, placements);
}

} // verus!
