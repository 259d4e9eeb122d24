//! The program a run carries with it: what travels, the content-addressed form
//! it travels as, and how a destination gets it back.
//!
//! The files a `[domain.*]` entry names become ordinary store objects, one
//! manifest object names them, and the manifest's digest is what a far
//! configuration states. The entries of a manifest are sorted by path, so one
//! tree always has one manifest, however it was walked.
//!
//! A manifest is written as a sequence of fields. The crate around this one
//! turns each field into bytes and back.
use vstd::prelude::*;
use vstd::string::*;

use crate::fault::Fault;
use crate::ordered::{comes_before, sort, Sortable};
use crate::text::{cat3, chars_of, decimal, quote, same};

verus! {

// ---- Paths ---------------------------------------------------------------------------------

/// The components of a path, between its separators.
pub open spec fn components(path: Seq<char>) -> Seq<Seq<char>> {
    crate::text::pieces(path, '/')
}

/// Whether a component names something inside the directory it stands in.
pub open spec fn names_inside(component: Seq<char>) -> bool {
    component.len() > 0 && component != seq!['.'] && component != seq!['.', '.']
}

/// Whether a path is relative and means the same thing on any machine: every
/// component names something inside, and nothing in it is another system's
/// separator.
pub open spec fn is_portable(path: Seq<char>) -> bool {
    &&& forall|i: int| 0 <= i < path.len() ==> path[i] != '\\'
    &&& forall|i: int|
        0 <= i < components(path).len() ==> names_inside(#[trigger] components(path)[i])
}

/// What a path that is not portable is refused with.
pub open spec fn not_portable_text(path: Seq<char>) -> Seq<char> {
    "payload path "@ + crate::text::quoted(path)
        + " is not a relative path that means the same thing on every machine"@
}

/// A portable path ends in a name, so neither in a separator nor in nothing.
pub proof fn a_portable_path_ends_in_a_name(path: Seq<char>)
    requires
        is_portable(path),
    ensures
        path.len() > 0,
        path.last() != '/',
{
    let parts = components(path);
    if path.len() == 0 {
        assert(parts[0].len() == 0);
        assert(names_inside(parts[0]));
    } else if path.last() == '/' {
        crate::text::pieces_are_never_none(path.drop_last(), '/');
        assert(parts.last().len() == 0);
        assert(names_inside(parts[parts.len() - 1]));
    }
}

/// A portable path leads nowhere but further inside: it starts at no root, ends in
/// a name, holds no separator of another system, and no component of it is empty,
/// the directory itself, or the one above.
pub proof fn a_portable_path_leads_inside(path: Seq<char>)
    requires
        is_portable(path),
    ensures
        path.len() > 0,
        path[0] != '/',
        path.last() != '/',
        !path.contains('\\'),
        forall|i: int|
            0 <= i < crate::text::pieces(path, '/').len() ==> {
                let component = #[trigger] crate::text::pieces(path, '/')[i];
                component.len() > 0 && component != seq!['.'] && component != seq!['.', '.']
            },
{
    a_portable_path_ends_in_a_name(path);
    if path[0] == '/' {
        lemma_a_root_is_an_empty_component(path);
        assert(names_inside(components(path)[0]));
    }
    assert forall|i: int| 0 <= i < crate::text::pieces(path, '/').len() implies {
        let component = #[trigger] crate::text::pieces(path, '/')[i];
        component.len() > 0 && component != seq!['.'] && component != seq!['.', '.']
    } by {
        assert(names_inside(components(path)[i]));
    }
}

proof fn lemma_a_root_is_an_empty_component(path: Seq<char>)
    requires
        path.len() > 0,
        path[0] == '/',
    ensures
        crate::text::pieces(path, '/').len() > 1,
        crate::text::pieces(path, '/')[0].len() == 0,
    decreases path.len(),
{
    let rest = path.drop_last();
    if path.len() == 1 {
        assert(rest =~= Seq::empty());
        assert(crate::text::pieces(rest, '/') =~= seq![Seq::<char>::empty()]);
    } else {
        lemma_a_root_is_an_empty_component(rest);
    }
}

/// Whether `path` is portable.
pub fn portable(path: &str) -> (r: bool)
    ensures
        r == is_portable(path@),
{
    let chars: Vec<char> = chars_of(path);
    let mut len: usize = 0;
    let mut dots: bool = true;
    let mut good: bool = true;
    let mut slashes: bool = true;
    let mut i: usize = 0;
    proof {
        assert(path@.take(0) =~= Seq::<char>::empty());
    }
    while i < chars.len()
        invariant
            i <= chars@.len(),
            chars@ == path@,
            len <= i,
            ({
                let parts = components(path@.take(i as int));
                &&& parts.len() >= 1
                &&& parts.last().len() == len
                &&& dots == (forall|k: int| 0 <= k < len ==> parts.last()[k] == '.')
                &&& good == (forall|k: int|
                    0 <= k < parts.len() - 1 ==> names_inside(#[trigger] parts[k]))
            }),
            slashes == (forall|k: int| 0 <= k < i ==> path@[k] != '\\'),
        decreases chars@.len() - i,
    {
        let c: char = chars[i];
        let ghost was = components(path@.take(i as int));
        let ghost now = components(path@.take(i + 1));
        proof {
            assert(path@.take(i + 1).drop_last() =~= path@.take(i as int));
            assert(path@.take(i + 1).last() == c);
        }
        if c == '\\' {
            slashes = false;
        }
        if c == '/' {
            let inside: bool = len > 0 && !(dots && len <= 2);
            proof {
                lemma_names_inside(was.last(), len as nat, dots);
                assert(now =~= was.push(Seq::empty()));
                assert(inside == names_inside(was.last()));
                assert forall|k: int| 0 <= k < now.len() - 1 implies now[k] == was[k] by {}
            }
            let ghost good_was = good;
            good = good && inside;
            proof {
                if good {
                    assert forall|k: int| 0 <= k < now.len() - 1 implies names_inside(
                        #[trigger] now[k],
                    ) by {
                        if k < was.len() - 1 {
                            assert(names_inside(was[k]));
                        }
                    }
                } else if good_was {
                    assert(!names_inside(now[was.len() - 1]));
                } else {
                    let k = choose|k: int| 0 <= k < was.len() - 1 && !names_inside(#[trigger] was[k]);
                    assert(!names_inside(now[k]));
                }
            }
            len = 0;
            dots = true;
        } else {
            proof {
                assert(now =~= was.drop_last().push(was.last().push(c)));
                assert(now.last() =~= was.last().push(c));
                assert forall|k: int| 0 <= k < now.len() - 1 implies now[k] == was[k] by {}
                if dots && c == '.' {
                    assert forall|k: int| 0 <= k < len + 1 implies now.last()[k] == '.' by {}
                } else if dots {
                    assert(now.last()[len as int] != '.');
                } else {
                    let k = choose|k: int| 0 <= k < len && was.last()[k] != '.';
                    assert(now.last()[k] != '.');
                }
                if !good {
                    let k = choose|k: int| 0 <= k < was.len() - 1 && !names_inside(#[trigger] was[k]);
                    assert(!names_inside(now[k]));
                }
            }
            len = len + 1;
            dots = dots && c == '.';
        }
        i = i + 1;
    }
    let inside: bool = len > 0 && !(dots && len <= 2);
    proof {
        assert(path@.take(path@.len() as int) =~= path@);
        let parts = components(path@);
        lemma_names_inside(parts.last(), len as nat, dots);
        if good && inside {
            assert forall|k: int| 0 <= k < parts.len() implies names_inside(#[trigger] parts[k]) by {
                if k < parts.len() - 1 {
                }
            }
        } else if !inside {
            assert(!names_inside(parts[parts.len() - 1]));
        } else {
            let k = choose|k: int| 0 <= k < parts.len() - 1 && !names_inside(#[trigger] parts[k]);
            assert(!names_inside(parts[k]));
        }
    }
    slashes && good && inside
}

proof fn lemma_names_inside(component: Seq<char>, len: nat, dots: bool)
    requires
        component.len() == len,
        dots == (forall|k: int| 0 <= k < len ==> component[k] == '.'),
    ensures
        names_inside(component) == (len > 0 && !(dots && len <= 2)),
{
    if dots && len == 1 {
        assert(component =~= seq!['.']);
    }
    if dots && len == 2 {
        assert(component =~= seq!['.', '.']);
    }
    if component == seq!['.'] || component == seq!['.', '.'] {
        assert(dots);
    }
}

/// Refuses a path that is not portable.
pub fn validate_path(path: &str) -> (r: Result<(), Fault>)
    ensures
        match r {
            Ok(()) => is_portable(path@),
            Err(fault) => !is_portable(path@) && fault@ == crate::fault::Complaint::Validation(
                not_portable_text(path@),
            ),
        },
{
    if portable(path) {
        Ok(())
    } else {
        let name: String = quote(path);
        Err(
            Fault::Validation(
                cat3(
                    "payload path ",
                    name.as_str(),
                    " is not a relative path that means the same thing on every machine",
                ),
            ),
        )
    }
}

// ---- Manifests -------------------------------------------------------------------------------

/// One file of a payload: where it sits in the tree, whether it runs, and the
/// object holding its bytes.
#[derive(Debug, Clone, PartialEq, Eq)]
pub struct FileEntry {
    /// Relative to the payload root.
    pub path: String,
    /// Whether the file carried an execute bit where it was ingested.
    pub executable: bool,
    /// The digest of the object holding the file's bytes.
    pub object: String,
}

impl FileEntry {
    /// The same entry again.
    pub fn copy(&self) -> (r: FileEntry)
        ensures
            r == *self,
    {
        FileEntry {
            path: self.path.clone(),
            executable: self.executable,
            object: self.object.clone(),
        }
    }
}

/// A payload, named: every file it comprises and the script that installs them.
#[derive(Debug, Clone, PartialEq, Eq)]
pub struct Manifest {
    /// The files, ascending by path.
    pub entries: Vec<FileEntry>,
    /// The install script's text, where there is one.
    pub install: Option<String>,
}

/// Whether entries are strictly ascending by path, so that no path occurs twice.
pub open spec fn ascending_paths(entries: Seq<FileEntry>) -> bool {
    forall|i: int, j: int|
        #![trigger entries[i], entries[j]]
        0 <= i < j < entries.len() ==> crate::ordered::before(entries[i].path@, entries[j].path@)
}

impl Manifest {
    /// What every manifest satisfies: it names a file, a payload of several
    /// names the script that turns them into a program, and its paths are
    /// portable and strictly ascending.
    pub open spec fn wf(self) -> bool {
        &&& self.entries@.len() > 0
        &&& self.entries@.len() > 1 ==> self.install is Some
        &&& ascending_paths(self.entries@)
        &&& forall|i: int|
            0 <= i < self.entries@.len() ==> is_portable((#[trigger] self.entries@[i]).path@)
    }
}

/// What a manifest of these sorted entries is refused with, if it is: an empty
/// one, one of several files without a script, then the first path that occurs
/// twice, then the first that is not portable.
pub open spec fn manifest_refusal(
    sorted: Seq<FileEntry>,
    install: Option<String>,
) -> Option<Seq<char>> {
    if sorted.len() == 0 {
        Some("a payload manifest names no file, so it names no program"@)
    } else if sorted.len() > 1 && install is None {
        Some(
            "a payload manifest of "@ + crate::text::decimal_text(sorted.len())
                + " files names no install script; which of them is the program is what the script decides"@,
        )
    } else if exists|i: int| is_first_repeat(sorted, i) {
        let i = choose|i: int| is_first_repeat(sorted, i);
        Some(
            "a payload manifest names "@ + crate::text::quoted(sorted[i].path@) + " twice"@,
        )
    } else if exists|i: int| is_first_unportable(sorted, i) {
        let i = choose|i: int| is_first_unportable(sorted, i);
        Some(not_portable_text(sorted[i].path@))
    } else {
        None
    }
}

/// Whether the path at `i` stands again at the next place.
pub open spec fn repeats_at(sorted: Seq<FileEntry>, i: int) -> bool {
    sorted[i].path@ == sorted[i + 1].path@
}

/// Whether `i` is the first place whose path stands again at the next.
pub open spec fn is_first_repeat(sorted: Seq<FileEntry>, i: int) -> bool {
    &&& 0 <= i < sorted.len() - 1
    &&& repeats_at(sorted, i)
    &&& forall|k: int| 0 <= k < i ==> !#[trigger] repeats_at(sorted, k)
}

/// Whether `i` is the first place whose path is not portable.
pub open spec fn is_first_unportable(sorted: Seq<FileEntry>, i: int) -> bool {
    &&& 0 <= i < sorted.len()
    &&& !is_portable(sorted[i].path@)
    &&& forall|k: int| 0 <= k < i ==> is_portable((#[trigger] sorted[k]).path@)
}

/// What making a manifest of `entries` comes to, once they are sorted.
pub open spec fn manifest_outcome(
    r: Result<Manifest, Fault>,
    sorted: Seq<FileEntry>,
    install: Option<String>,
) -> bool {
    match manifest_refusal(sorted, install) {
        Some(message) => r matches Err(fault) && fault@ == crate::fault::Complaint::Validation(
            message,
        ),
        None => r matches Ok(manifest) && manifest.entries@ == sorted && manifest.install
            == install,
    }
}

impl Sortable for FileEntry {
    open spec fn stands_before(self, other: FileEntry) -> bool {
        crate::ordered::before(self.path@, other.path@)
    }

    proof fn stands_before_is_irreflexive(a: FileEntry) {
        crate::ordered::before_is_irreflexive(a.path@);
    }

    proof fn stands_before_is_transitive(a: FileEntry, b: FileEntry, c: FileEntry) {
        crate::ordered::before_is_transitive(a.path@, b.path@, c.path@);
    }

    fn goes_before(&self, other: &FileEntry) -> (r: bool) {
        comes_before(self.path.as_str(), other.path.as_str())
    }
}

proof fn lemma_distinct_in_order_ascends(sorted: Seq<FileEntry>)
    requires
        crate::ordered::in_order(sorted),
        forall|k: int| 0 <= k < sorted.len() - 1 ==> !#[trigger] repeats_at(sorted, k),
    ensures
        ascending_paths(sorted),
{
    assert forall|i: int, j: int|
        #![trigger sorted[i], sorted[j]]
        0 <= i < j < sorted.len() implies crate::ordered::before(
        sorted[i].path@,
        sorted[j].path@,
    ) by {
        lemma_ascends_to(sorted, i, j);
    }
}

proof fn lemma_ascends_to(sorted: Seq<FileEntry>, i: int, j: int)
    requires
        crate::ordered::in_order(sorted),
        forall|k: int| 0 <= k < sorted.len() - 1 ==> !#[trigger] repeats_at(sorted, k),
        0 <= i < j < sorted.len(),
    ensures
        crate::ordered::before(sorted[i].path@, sorted[j].path@),
    decreases j - i,
{
    crate::ordered::before_is_total(sorted[j - 1].path@, sorted[j].path@);
    assert(!repeats_at(sorted, j - 1));
    assert(!crate::ordered::before(sorted[j].path@, sorted[j - 1].path@));
    if i < j - 1 {
        lemma_ascends_to(sorted, i, j - 1);
        crate::ordered::before_is_transitive(
            sorted[i].path@,
            sorted[j - 1].path@,
            sorted[j].path@,
        );
    }
}

proof fn lemma_first_repeat_unique(sorted: Seq<FileEntry>, i: int, j: int)
    requires
        is_first_repeat(sorted, i),
        is_first_repeat(sorted, j),
    ensures
        i == j,
{
}

/// What files make a manifest: there is one at least, several come with the
/// script that makes a program of them, no path is named twice, and every path
/// is portable. Files that are refused are refused for one of these.
pub proof fn what_files_make_a_manifest(
    r: Result<Manifest, Fault>,
    sorted: Seq<FileEntry>,
    install: Option<String>,
)
    requires
        crate::ordered::in_order(sorted),
        manifest_outcome(r, sorted, install),
    ensures
        r is Ok <==> {
            &&& sorted.len() > 0
            &&& sorted.len() > 1 ==> install is Some
            &&& forall|i: int, j: int|
                0 <= i < j < sorted.len() ==> (#[trigger] sorted[i]).path@ != (
                #[trigger] sorted[j]).path@
            &&& forall|i: int|
                0 <= i < sorted.len() ==> is_portable((#[trigger] sorted[i]).path@)
        },
        r matches Ok(manifest) ==> manifest.entries@ == sorted && manifest.install == install,
{
    if exists|i: int| is_first_repeat(sorted, i) {
        let i = choose|i: int| is_first_repeat(sorted, i);
        assert(repeats_at(sorted, i));
        assert(sorted[i].path@ == sorted[i + 1].path@);
    } else {
        assert forall|k: int| 0 <= k < sorted.len() - 1 implies !#[trigger] repeats_at(
            sorted,
            k,
        ) by {
            if repeats_at(sorted, k) {
                lemma_there_is_a_first_repeat(sorted, k);
            }
        }
        lemma_distinct_in_order_ascends(sorted);
        assert forall|i: int, j: int| 0 <= i < j < sorted.len() implies (
        #[trigger] sorted[i]).path@ != (#[trigger] sorted[j]).path@ by {
            assert(crate::ordered::before(sorted[i].path@, sorted[j].path@));
            crate::ordered::before_is_irreflexive(sorted[i].path@);
        }
    }
    if exists|i: int| is_first_unportable(sorted, i) {
        let i = choose|i: int| is_first_unportable(sorted, i);
        assert(!is_portable(sorted[i].path@));
    } else {
        assert forall|k: int| 0 <= k < sorted.len() implies is_portable(
            (#[trigger] sorted[k]).path@,
        ) by {
            if !is_portable(sorted[k].path@) {
                lemma_there_is_a_first_unportable(sorted, k);
            }
        }
    }
}

proof fn lemma_there_is_a_first_repeat(sorted: Seq<FileEntry>, k: int)
    requires
        0 <= k < sorted.len() - 1,
        repeats_at(sorted, k),
    ensures
        exists|i: int| is_first_repeat(sorted, i),
    decreases k,
{
    if exists|m: int| 0 <= m < k && #[trigger] repeats_at(sorted, m) {
        let m = choose|m: int| 0 <= m < k && #[trigger] repeats_at(sorted, m);
        lemma_there_is_a_first_repeat(sorted, m);
    } else {
        assert(is_first_repeat(sorted, k));
    }
}

proof fn lemma_there_is_a_first_unportable(sorted: Seq<FileEntry>, k: int)
    requires
        0 <= k < sorted.len(),
        !is_portable(sorted[k].path@),
    ensures
        exists|i: int| is_first_unportable(sorted, i),
    decreases k,
{
    if exists|m: int| 0 <= m < k && !is_portable((#[trigger] sorted[m]).path@) {
        let m = choose|m: int| 0 <= m < k && !is_portable((#[trigger] sorted[m]).path@);
        lemma_there_is_a_first_unportable(sorted, m);
    } else {
        assert(is_first_unportable(sorted, k));
    }
}

impl Manifest {
    /// The manifest `entries` and `install` describe, validated and in its
    /// canonical order. Both the ingest and the decode build through it, so a
    /// manifest that came from elsewhere is held to exactly what one built here
    /// satisfies.
    pub fn new(entries: Vec<FileEntry>, install: Option<String>) -> (r: Result<Manifest, Fault>)
        ensures
            exists|sorted: Seq<FileEntry>|
                #![trigger crate::ordered::is_sorting(sorted, entries@)]
                crate::ordered::is_sorting(sorted, entries@) && manifest_outcome(r, sorted, install),
            r matches Ok(manifest) ==> manifest.wf(),
    {
        let sorted: Vec<FileEntry> = sort(entries);
        if sorted.len() == 0 {
            let r: Result<Manifest, Fault> = Err(
                Fault::Validation(
                    "a payload manifest names no file, so it names no program".to_owned(),
                ),
            );
            proof {
                assert(crate::ordered::is_sorting(sorted@, entries@) && manifest_outcome(r, sorted@, install));
            }
            return r;
        }
        let scripted: bool = match &install {
            Some(_) => true,
            None => false,
        };
        if sorted.len() > 1 && !scripted {
            let count: String = decimal(sorted.len() as u64);
            let r: Result<Manifest, Fault> = Err(
                Fault::Validation(
                    cat3(
                        "a payload manifest of ",
                        count.as_str(),
                        " files names no install script; which of them is the program is what the script decides",
                    ),
                ),
            );
            proof {
                assert(crate::ordered::is_sorting(sorted@, entries@) && manifest_outcome(r, sorted@, install));
            }
            return r;
        }
        let mut i: usize = 0;
        while i < sorted.len() - 1
            invariant
                sorted@.len() > 0,
                i <= sorted@.len() - 1,
                sorted@.len() > 1 ==> install is Some,
                crate::ordered::is_sorting(sorted@, entries@),
                forall|k: int| 0 <= k < i ==> !#[trigger] repeats_at(sorted@, k),
            decreases sorted@.len() - i,
        {
            if same(sorted[i].path.as_str(), sorted[i + 1].path.as_str()) {
                let name: String = quote(sorted[i].path.as_str());
                let r: Result<Manifest, Fault> = Err(
                    Fault::Validation(cat3("a payload manifest names ", name.as_str(), " twice")),
                );
                proof {
                    assert(is_first_repeat(sorted@, i as int));
                    let c = choose|c: int| is_first_repeat(sorted@, c);
                    lemma_first_repeat_unique(sorted@, i as int, c);
                    assert(crate::ordered::is_sorting(sorted@, entries@) && manifest_outcome(r, sorted@, install));
                }
                return r;
            }
            i = i + 1;
        }
        proof {
            assert forall|c: int| !is_first_repeat(sorted@, c) by {
                if is_first_repeat(sorted@, c) {
                    assert(!repeats_at(sorted@, c));
                }
            }
            lemma_distinct_in_order_ascends(sorted@);
        }
        let mut j: usize = 0;
        while j < sorted.len()
            invariant
                j <= sorted@.len(),
                sorted@.len() > 0,
                sorted@.len() > 1 ==> install is Some,
                crate::ordered::is_sorting(sorted@, entries@),
                ascending_paths(sorted@),
                forall|c: int| !is_first_repeat(sorted@, c),
                forall|k: int| 0 <= k < j ==> is_portable((#[trigger] sorted@[k]).path@),
            decreases sorted@.len() - j,
        {
            match validate_path(sorted[j].path.as_str()) {
                Ok(()) => {},
                Err(fault) => {
                    let r: Result<Manifest, Fault> = Err(fault);
                    proof {
                        assert(is_first_unportable(sorted@, j as int));
                        let c = choose|c: int| is_first_unportable(sorted@, c);
                        assert(c == j) by {
                            if c < j {
                                assert(is_portable(sorted@[c].path@));
                            } else if j < c {
                                assert(is_portable(sorted@[j as int].path@));
                            }
                        }
                        assert(crate::ordered::is_sorting(sorted@, entries@) && manifest_outcome(
                            r,
                            sorted@,
                            install,
                        ));
                    }
                    return r;
                },
            }
            j = j + 1;
        }
        let r: Result<Manifest, Fault> = Ok(Manifest { entries: sorted, install });
        proof {
            assert forall|c: int| !is_first_unportable(sorted@, c) by {
                if is_first_unportable(sorted@, c) {
                    assert(is_portable(sorted@[c].path@));
                }
            }
            assert(crate::ordered::is_sorting(sorted@, entries@) && manifest_outcome(r, sorted@, install));
        }
        r
    }

    /// The install script's text, where the payload carries one.
    pub fn install(&self) -> (r: Option<&str>)
        ensures
            match (r, self.install) {
                (Some(text), Some(script)) => text@ == script@,
                (None, None) => true,
                _ => false,
            },
    {
        match &self.install {
            Some(script) => Some(script.as_str()),
            None => None,
        }
    }

    /// Every object this manifest names, in its own order.
    pub fn objects(&self) -> (r: Vec<String>)
        ensures
            r@ == self.entries@.map_values(|entry: FileEntry| entry.object),
    {
        let mut r: Vec<String> = Vec::new();
        let mut i: usize = 0;
        while i < self.entries.len()
            invariant
                i <= self.entries@.len(),
                r@ == self.entries@.take(i as int).map_values(|entry: FileEntry| entry.object),
            decreases self.entries@.len() - i,
        {
            r.push(self.entries[i].object.clone());
            i = i + 1;
            proof {
                assert(r@ =~= self.entries@.take(i as int).map_values(
                    |entry: FileEntry| entry.object,
                ));
            }
        }
        proof {
            assert(self.entries@.take(i as int) =~= self.entries@);
        }
        r
    }

    /// The one file of a payload of a single file; none for a payload of
    /// several, which names an install script instead.
    pub fn lone_file(&self) -> (r: Option<&FileEntry>)
        ensures
            match r {
                Some(entry) => self.entries@.len() == 1 && *entry == self.entries@[0],
                None => self.entries@.len() != 1,
            },
            self.wf() && self.install is None ==> r is Some,
    {
        if self.entries.len() == 1 {
            Some(&self.entries[0])
        } else {
            None
        }
    }
}

/// Whether `entries` are the files of a tree, each once: at the path of each, the
/// tree says whether it runs and what its bytes are stored under.
pub open spec fn is_files_of(
    entries: Seq<FileEntry>,
    files: Map<Seq<char>, (bool, Seq<char>)>,
) -> bool {
    &&& forall|i: int| 0 <= i < entries.len() ==> is_file_of(#[trigger] entries[i], files)
    &&& forall|i: int, j: int|
        #![trigger entries[i], entries[j]]
        0 <= i < j < entries.len() ==> entries[i].path@ != entries[j].path@
    &&& forall|path: Seq<char>| #[trigger]
        files.dom().contains(path) ==> exists|i: int|
            0 <= i < entries.len() && (#[trigger] entries[i]).path@ == path
}

/// Whether an entry is one of the files of a tree.
pub open spec fn is_file_of(entry: FileEntry, files: Map<Seq<char>, (bool, Seq<char>)>) -> bool {
    files.dom().contains(entry.path@) && files[entry.path@] == (entry.executable, entry.object@)
}

/// The files of a tree are its files in whatever order they stand.
pub proof fn files_in_any_order_are_the_tree(
    entries: Seq<FileEntry>,
    others: Seq<FileEntry>,
    files: Map<Seq<char>, (bool, Seq<char>)>,
)
    requires
        is_files_of(entries, files),
        others.to_multiset() == entries.to_multiset(),
    ensures
        is_files_of(others, files),
{
    broadcast use vstd::seq_lib::group_to_multiset_ensures;

    entries.to_multiset_ensures();
    others.to_multiset_ensures();
    assert forall|e: FileEntry| #[trigger] entries.contains(e) == others.contains(e) by {
        assert(entries.contains(e) == (entries.to_multiset().count(e) > 0));
        assert(others.contains(e) == (others.to_multiset().count(e) > 0));
    }
    assert(entries.no_duplicates()) by {
        assert forall|i: int, j: int|
            0 <= i < entries.len() && 0 <= j < entries.len() && i != j implies entries[i]
            != entries[j] by {
            if i < j {
                assert(entries[i].path@ != entries[j].path@);
            } else {
                assert(entries[j].path@ != entries[i].path@);
            }
        }
    }
    entries.lemma_multiset_has_no_duplicates();
    others.lemma_multiset_has_no_duplicates_conv();
    assert forall|i: int| 0 <= i < others.len() implies is_file_of(#[trigger] others[i], files) by {
        assert(others.contains(others[i]));
        assert(entries.contains(others[i]));
    }
    assert forall|i: int, j: int|
        #![trigger others[i], others[j]]
        0 <= i < j < others.len() implies others[i].path@ != others[j].path@ by {
        assert(others.contains(others[i]) && others.contains(others[j]));
        assert(entries.contains(others[i]) && entries.contains(others[j]));
        let k = choose|k: int| 0 <= k < entries.len() && entries[k] == others[i];
        let l = choose|l: int| 0 <= l < entries.len() && entries[l] == others[j];
        assert(others[i] != others[j]);
        if k < l {
            assert(entries[k].path@ != entries[l].path@);
        } else {
            assert(entries[l].path@ != entries[k].path@);
        }
    }
    assert forall|path: Seq<char>| #[trigger] files.dom().contains(path) implies exists|i: int|
        0 <= i < others.len() && (#[trigger] others[i]).path@ == path by {
        let k = choose|k: int| 0 <= k < entries.len() && (#[trigger] entries[k]).path@ == path;
        assert(entries.contains(entries[k]));
        assert(others.contains(entries[k]));
        let i = choose|i: int| 0 <= i < others.len() && others[i] == entries[k];
        assert(others[i].path@ == path);
    }
}

/// The text of an install script, where there is one.
pub open spec fn script_text(install: Option<String>) -> Option<Seq<char>> {
    match install {
        Some(text) => Some(text@),
        None => None,
    }
}

/// Two manifests are written alike exactly where they name the same files of the
/// same trees and carry the same script. So the digest of what is written moves
/// with a path, with the bytes of a file, with its execute bit, and with the
/// script, and with nothing else.
pub proof fn a_tree_and_its_script_are_what_is_written(
    a: Manifest,
    a_files: Map<Seq<char>, (bool, Seq<char>)>,
    a_fields: Seq<Field>,
    b: Manifest,
    b_files: Map<Seq<char>, (bool, Seq<char>)>,
    b_fields: Seq<Field>,
)
    requires
        a.wf(),
        b.wf(),
        is_files_of(a.entries@, a_files),
        is_files_of(b.entries@, b_files),
        is_written(a_fields, a.entries@, a.install),
        is_written(b_fields, b.entries@, b.install),
    ensures
        written_alike(a_fields, b_fields) <==> a_files == b_files && script_text(a.install)
            == script_text(b.install),
{
    if a_files == b_files && script_text(a.install) == script_text(b.install) {
        lemma_same_files(a.entries@, b.entries@, a_files);
        let body = 3 * a.entries@.len();
        assert forall|j: int| 0 <= j < a_fields.len() implies (#[trigger] a_fields[j])@
            == b_fields[j]@ by {
            if 0 < j <= body {
                let k = (j - 1) / 3;
                assert(0 <= k < a.entries@.len());
                assert(same_entry(a.entries@[k], b.entries@[k]));
            }
        }
    }
    if written_alike(a_fields, b_fields) {
        lemma_written_alike(a, a_fields, b, b_fields);
        assert forall|path: Seq<char>| #[trigger]
            a_files.dom().contains(path) == b_files.dom().contains(path) && (a_files.dom().contains(
                path,
            ) ==> a_files[path] == b_files[path]) by {
            if a_files.dom().contains(path) {
                let i = choose|i: int|
                    0 <= i < a.entries@.len() && (#[trigger] a.entries@[i]).path@ == path;
                assert(same_entry(a.entries@[i], b.entries@[i]));
                assert(is_file_of(a.entries@[i], a_files));
                assert(is_file_of(b.entries@[i], b_files));
            }
            if b_files.dom().contains(path) {
                let i = choose|i: int|
                    0 <= i < b.entries@.len() && (#[trigger] b.entries@[i]).path@ == path;
                assert(same_entry(a.entries@[i], b.entries@[i]));
                assert(is_file_of(a.entries@[i], a_files));
            }
        }
        assert(a_files =~= b_files);
    }
}

/// Whether two entries say the same.
spec fn same_entry(a: FileEntry, b: FileEntry) -> bool {
    a.path@ == b.path@ && a.executable == b.executable && a.object@ == b.object@
}

proof fn lemma_same_files(
    a: Seq<FileEntry>,
    b: Seq<FileEntry>,
    files: Map<Seq<char>, (bool, Seq<char>)>,
)
    requires
        ascending_paths(a),
        ascending_paths(b),
        is_files_of(a, files),
        is_files_of(b, files),
    ensures
        a.len() == b.len(),
        forall|i: int| 0 <= i < a.len() ==> same_entry(#[trigger] a[i], b[i]),
{
    let x = Seq::new(a.len(), |i: int| a[i].path@);
    let y = Seq::new(b.len(), |i: int| b[i].path@);
    assert(crate::ordered::ascending(x)) by {
        assert forall|i: int, j: int| 0 <= i < j < x.len() implies crate::ordered::before(
            #[trigger] x[i],
            #[trigger] x[j],
        ) by {
            assert(crate::ordered::before(a[i].path@, a[j].path@));
        }
    }
    assert(crate::ordered::ascending(y)) by {
        assert forall|i: int, j: int| 0 <= i < j < y.len() implies crate::ordered::before(
            #[trigger] y[i],
            #[trigger] y[j],
        ) by {
            assert(crate::ordered::before(b[i].path@, b[j].path@));
        }
    }
    assert forall|path: Seq<char>| x.to_set().contains(path) == files.dom().contains(path) by {
        if x.to_set().contains(path) {
            let i = choose|i: int| 0 <= i < x.len() && x[i] == path;
            assert(is_file_of(a[i], files));
        }
        if files.dom().contains(path) {
            let i = choose|i: int| 0 <= i < a.len() && (#[trigger] a[i]).path@ == path;
            assert(x[i] == path);
        }
    }
    assert forall|path: Seq<char>| y.to_set().contains(path) == files.dom().contains(path) by {
        if y.to_set().contains(path) {
            let i = choose|i: int| 0 <= i < y.len() && y[i] == path;
            assert(is_file_of(b[i], files));
        }
        if files.dom().contains(path) {
            let i = choose|i: int| 0 <= i < b.len() && (#[trigger] b[i]).path@ == path;
            assert(y[i] == path);
        }
    }
    assert(x.to_set() =~= y.to_set());
    crate::ordered::ascending_is_canonical(x, y);
    assert(a.len() == x.len());
    assert(b.len() == y.len());
    assert forall|i: int| 0 <= i < a.len() implies same_entry(#[trigger] a[i], b[i]) by {
        assert(x[i] == y[i]);
        assert(is_file_of(a[i], files));
        assert(is_file_of(b[i], files));
    }
}

proof fn lemma_written_alike(a: Manifest, a_fields: Seq<Field>, b: Manifest, b_fields: Seq<Field>)
    requires
        is_written(a_fields, a.entries@, a.install),
        is_written(b_fields, b.entries@, b.install),
        written_alike(a_fields, b_fields),
    ensures
        a.entries@.len() == b.entries@.len(),
        forall|i: int|
            0 <= i < a.entries@.len() ==> same_entry(#[trigger] a.entries@[i], b.entries@[i]),
        script_text(a.install) == script_text(b.install),
{
    assert(a_fields[0]@ == b_fields[0]@);
    assert(a.entries@.len() == b.entries@.len());
    let n = a.entries@.len();
    assert forall|i: int| 0 <= i < n implies same_entry(
        #[trigger] a.entries@[i],
        b.entries@[i],
    ) by {
        lemma_written_entry(a_fields, a.entries@, a.install, i);
        lemma_written_entry(b_fields, b.entries@, b.install, i);
        assert(a_fields[3 * i + 1]@ == b_fields[3 * i + 1]@);
        assert(a_fields[3 * i + 2]@ == b_fields[3 * i + 2]@);
        assert(a_fields[3 * i + 3]@ == b_fields[3 * i + 3]@);
    }
    let at: int = (3 * n + 1) as int;
    assert(a_fields[at]@ == b_fields[at]@);
    if a.install is Some {
        assert(a_fields[at + 1]@ == b_fields[at + 1]@);
    }
}

/// Two manifests of the same files are the same, whatever order the files were
/// offered in.
pub proof fn one_tree_has_one_manifest(a: Seq<FileEntry>, b: Seq<FileEntry>)
    requires
        ascending_paths(a),
        ascending_paths(b),
        a.to_multiset() == b.to_multiset(),
    ensures
        a == b,
    decreases a.len(),
{
    broadcast use vstd::seq_lib::group_to_multiset_ensures;

    a.to_multiset_ensures();
    b.to_multiset_ensures();
    assert(a.len() == b.len());
    if a.len() == 0 {
        assert(a =~= b);
    } else {
        let x = a.last();
        let y = b.last();
        assert(a.contains(x));
        assert(b.contains(y));
        assert(b.to_multiset().count(x) > 0);
        assert(a.to_multiset().count(y) > 0);
        assert(b.contains(x));
        assert(a.contains(y));
        let i = choose|i: int| 0 <= i < a.len() && a[i] == y;
        let j = choose|j: int| 0 <= j < b.len() && b[j] == x;
        if x != y {
            assert(i < a.len() - 1 && j < b.len() - 1);
            assert(crate::ordered::before(a[i].path@, a[a.len() - 1].path@));
            assert(crate::ordered::before(b[j].path@, b[b.len() - 1].path@));
            crate::ordered::before_is_transitive(x.path@, y.path@, x.path@);
            crate::ordered::before_is_irreflexive(x.path@);
        }
        let p = a.drop_last();
        let q = b.drop_last();
        assert(a =~= p.push(x));
        assert(b =~= q.push(x));
        assert(p.to_multiset() =~= q.to_multiset()) by {
            p.to_multiset_ensures();
            q.to_multiset_ensures();
            assert(p.push(x).to_multiset() =~= p.to_multiset().insert(x));
            assert(q.push(x).to_multiset() =~= q.to_multiset().insert(x));
            assert(p.to_multiset() =~= p.to_multiset().insert(x).remove(x));
            assert(q.to_multiset() =~= q.to_multiset().insert(x).remove(x));
        }
        assert(ascending_paths(p)) by {
            assert forall|i: int, j: int|
                #![trigger p[i], p[j]]
                0 <= i < j < p.len() implies crate::ordered::before(p[i].path@, p[j].path@) by {
                assert(a[i] == p[i] && a[j] == p[j]);
            }
        }
        assert(ascending_paths(q)) by {
            assert forall|i: int, j: int|
                #![trigger q[i], q[j]]
                0 <= i < j < q.len() implies crate::ordered::before(q[i].path@, q[j].path@) by {
                assert(b[i] == q[i] && b[j] == q[j]);
            }
        }
        one_tree_has_one_manifest(p, q);
    }
}

// ---- The written form ---------------------------------------------------------------------------

/// One field of a written manifest.
#[derive(Debug, Clone, PartialEq, Eq)]
pub enum Field {
    /// How many entries follow.
    Count(u32),
    /// A text.
    Text(String),
    /// Yes or no.
    Flag(bool),
    /// The digest of an object.
    Object(String),
}

/// What a [`Field`] says.
pub enum FieldText {
    Count(u32),
    Text(Seq<char>),
    Flag(bool),
    Object(Seq<char>),
}

impl View for Field {
    type V = FieldText;

    open spec fn view(&self) -> FieldText {
        match self {
            Field::Count(count) => FieldText::Count(*count),
            Field::Text(text) => FieldText::Text(text@),
            Field::Flag(flag) => FieldText::Flag(*flag),
            Field::Object(object) => FieldText::Object(object@),
        }
    }
}

/// Whether two lists of fields say the same, field by field.
pub open spec fn written_alike(a: Seq<Field>, b: Seq<Field>) -> bool {
    a.len() == b.len() && forall|i: int|
        0 <= i < a.len() ==> (#[trigger] a[i])@ == b[i]@
}

/// The fields a manifest is written as: the count, three fields for each entry,
/// whether there is a script, and its text where there is.
pub open spec fn fields_of(entries: Seq<FileEntry>, install: Option<String>) -> Seq<Field> {
    let body = 3 * entries.len();
    Seq::new(
        (body + 2 + if install is Some {
            1int
        } else {
            0int
        }) as nat,
        |j: int|
            if j == 0 {
                Field::Count(entries.len() as u32)
            } else if j <= body {
                let entry = entries[(j - 1) / 3];
                if (j - 1) % 3 == 0 {
                    Field::Text(entry.path)
                } else if (j - 1) % 3 == 1 {
                    Field::Flag(entry.executable)
                } else {
                    Field::Object(entry.object)
                }
            } else if j == body + 1 {
                Field::Flag(install is Some)
            } else {
                Field::Text(install->0)
            },
    )
}

/// Whether `fields` is how a manifest of these parts is written.
pub open spec fn is_written(
    fields: Seq<Field>,
    entries: Seq<FileEntry>,
    install: Option<String>,
) -> bool {
    entries.len() <= u32::MAX && fields == fields_of(entries, install)
}

/// What a field holds.
#[derive(Debug, Clone, Copy, PartialEq, Eq, Structural)]
pub enum FieldKind {
    Count,
    Text,
    Flag,
    Object,
}

/// The kind of a field.
pub open spec fn kind_of(field: Field) -> FieldKind {
    match field {
        Field::Count(_) => FieldKind::Count,
        Field::Text(_) => FieldKind::Text,
        Field::Flag(_) => FieldKind::Flag,
        Field::Object(_) => FieldKind::Object,
    }
}

/// The kind of the field that follows those read so far, or none where they are
/// a whole manifest's, or no manifest's: the count, then a text, a flag, and an
/// object for each entry, then a flag, and a text where the flag says that there
/// is a script.
pub open spec fn kind_after(read: Seq<Field>) -> Option<FieldKind> {
    if read.len() == 0 {
        Some(FieldKind::Count)
    } else {
        match read[0] {
            Field::Count(count) => {
                let body = 3 * count;
                let j = read.len() as int;
                if j <= body {
                    if (j - 1) % 3 == 0 {
                        Some(FieldKind::Text)
                    } else if (j - 1) % 3 == 1 {
                        Some(FieldKind::Flag)
                    } else {
                        Some(FieldKind::Object)
                    }
                } else if j == body + 1 {
                    Some(FieldKind::Flag)
                } else if j == body + 2 && read[j - 1] == Field::Flag(true) {
                    Some(FieldKind::Text)
                } else {
                    None
                }
            },
            _ => None,
        }
    }
}

/// The kind of the field that follows those read so far, or none where there is
/// no more to read.
pub fn next_kind(read: &Vec<Field>) -> (kind: Option<FieldKind>)
    ensures
        kind == kind_after(read@),
{
    let n: usize = read.len();
    if n == 0 {
        return Some(FieldKind::Count);
    }
    let count: u32 = match &read[0] {
        Field::Count(count) => *count,
        _ => {
            return None;
        },
    };
    let body: u64 = 3 * (count as u64);
    let given: u64 = n as u64;
    if given <= body {
        let place: u64 = (given - 1) % 3;
        if place == 0 {
            Some(FieldKind::Text)
        } else if place == 1 {
            Some(FieldKind::Flag)
        } else {
            Some(FieldKind::Object)
        }
    } else if given - body == 1 {
        Some(FieldKind::Flag)
    } else if given - body == 2 {
        match &read[n - 1] {
            Field::Flag(true) => Some(FieldKind::Text),
            _ => None,
        }
    } else {
        None
    }
}

/// Whether `fields` were read one after another, each of the kind that followed
/// those before it, until none followed.
pub open spec fn were_read(fields: Seq<Field>) -> bool {
    &&& forall|k: int|
        0 <= k < fields.len() ==> kind_after(fields.take(k)) == Some(
            kind_of(#[trigger] fields[k]),
        )
    &&& kind_after(fields) is None
}

/// What is read kind by kind is exactly what a manifest is written as: the
/// fields of a manifest are of the kinds that follow each other, and fields of
/// those kinds are some manifest's.
pub proof fn what_is_read_is_what_is_written(fields: Seq<Field>)
    ensures
        were_read(fields) <==> exists|entries: Seq<FileEntry>, install: Option<String>|
            #[trigger] is_written(fields, entries, install),
{
    if exists|entries: Seq<FileEntry>, install: Option<String>|
        #[trigger] is_written(fields, entries, install) {
        let (entries, install) = choose|entries: Seq<FileEntry>, install: Option<String>|
            #[trigger] is_written(fields, entries, install);
        lemma_written_is_read(fields, entries, install);
    }
    if were_read(fields) {
        lemma_read_is_written(fields);
    }
}

proof fn lemma_written_is_read(
    fields: Seq<Field>,
    entries: Seq<FileEntry>,
    install: Option<String>,
)
    requires
        is_written(fields, entries, install),
    ensures
        were_read(fields),
{
    let body: int = 3 * entries.len() as int;
    assert(fields[0] == Field::Count(entries.len() as u32));
    assert(fields[body + 1] == Field::Flag(install is Some));
    assert forall|k: int| 0 <= k < fields.len() implies kind_after(fields.take(k)) == Some(
        kind_of(#[trigger] fields[k]),
    ) by {
        let read = fields.take(k);
        if k > 0 {
            assert(read[0] == fields[0]);
            if k == body + 2 {
                assert(read[k - 1] == fields[k - 1]);
            }
        }
    }
}

proof fn lemma_read_is_written(fields: Seq<Field>)
    requires
        were_read(fields),
    ensures
        exists|entries: Seq<FileEntry>, install: Option<String>|
            #[trigger] is_written(fields, entries, install),
{
    assert(fields.take(0).len() == 0);
    assert(kind_of(fields[0]) == FieldKind::Count);
    let count = fields[0]->Count_0;
    let body: int = 3 * count as int;
    let n = fields.len() as int;
    assert(n >= body + 2);
    assert forall|k: int| 1 <= k < n implies fields.take(k)[0] == fields[0] by {}
    if n > body + 2 {
        let k = body + 2;
        assert(fields.take(k)[k - 1] == fields[k - 1]);
        assert(kind_after(fields.take(k)) == Some(kind_of(fields[k])));
        if n > body + 3 {
            assert(kind_after(fields.take(k + 1)) == Some(kind_of(fields[k + 1])));
        }
    }
    let entries = Seq::new(
        count as nat,
        |i: int|
            FileEntry {
                path: fields[1 + 3 * i]->Text_0,
                executable: fields[2 + 3 * i]->Flag_0,
                object: fields[3 + 3 * i]->Object_0,
            },
    );
    let install = if n == body + 3 {
        Some(fields[body + 2]->Text_0)
    } else {
        None
    };
    assert(kind_after(fields.take(body + 1)) == Some(kind_of(fields[body + 1])));
    assert forall|k: int|
        #![trigger entries[k]]
        0 <= k < entries.len() implies fields[1 + 3 * k] == Field::Text(entries[k].path) && fields[2
        + 3 * k] == Field::Flag(entries[k].executable) && fields[3 + 3 * k] == Field::Object(
        entries[k].object,
    ) by {
        assert(kind_after(fields.take(1 + 3 * k)) == Some(kind_of(fields[1 + 3 * k])));
        assert(kind_after(fields.take(2 + 3 * k)) == Some(kind_of(fields[2 + 3 * k])));
        assert(kind_after(fields.take(3 + 3 * k)) == Some(kind_of(fields[3 + 3 * k])));
        assert((1 + 3 * k - 1) % 3 == 0);
        assert((2 + 3 * k - 1) % 3 == 1);
        assert((3 + 3 * k - 1) % 3 == 2);
    }
    lemma_parts_are_written(fields, entries, install);
}

/// What fields that are no manifest are refused with.
pub open spec fn malformed_text() -> Seq<char> {
    "payload manifest fields are cut short or out of place"@
}

/// What entries out of order are refused with.
pub open spec fn out_of_order_text(a: Seq<char>, b: Seq<char>) -> Seq<char> {
    "payload manifest entries are out of order: "@ + crate::text::quoted(a)
        + " does not precede "@ + crate::text::quoted(b)
}

/// Whether `i` is the first place whose path does not come before the next.
pub open spec fn is_first_disorder(entries: Seq<FileEntry>, i: int) -> bool {
    &&& 0 <= i < entries.len() - 1
    &&& !precedes_next(entries, i)
    &&& forall|k: int| 0 <= k < i ==> #[trigger] precedes_next(entries, k)
}

/// Whether the path at `i` comes before the next.
pub open spec fn precedes_next(entries: Seq<FileEntry>, i: int) -> bool {
    crate::ordered::before(entries[i].path@, entries[i + 1].path@)
}

/// Whether `fields` begin with the count and all the `entries` of a manifest,
/// whatever follows them.
pub open spec fn begins_with(fields: Seq<Field>, entries: Seq<FileEntry>) -> bool {
    &&& entries.len() <= u32::MAX
    &&& fields.len() > 3 * entries.len()
    &&& fields[0] == Field::Count(entries.len() as u32)
    &&& forall|k: int|
        #![trigger entries[k]]
        0 <= k < entries.len() ==> fields[1 + 3 * k] == Field::Text(entries[k].path) && fields[2 + 3
            * k] == Field::Flag(entries[k].executable) && fields[3 + 3 * k] == Field::Object(
            entries[k].object,
        )
}

/// Whether `fault` refuses entries for the first of them that is out of order.
pub open spec fn refuses_disorder(fault: Fault, entries: Seq<FileEntry>) -> bool {
    exists|i: int| #[trigger]
        is_first_disorder(entries, i) && fault@ == crate::fault::Complaint::Encoding(
            out_of_order_text(entries[i].path@, entries[i + 1].path@),
        )
}

/// Whether the fields read so far hold all the entries, and those are out of
/// order.
pub open spec fn is_disordered(fields: Seq<Field>) -> bool {
    exists|entries: Seq<FileEntry>, i: int|
        #![trigger begins_with(fields, entries), is_first_disorder(entries, i)]
        begins_with(fields, entries) && is_first_disorder(entries, i)
}

/// What reading a manifest of these parts comes to.
pub open spec fn decode_outcome(
    r: Result<Manifest, Fault>,
    entries: Seq<FileEntry>,
    install: Option<String>,
) -> bool {
    if exists|i: int| is_first_disorder(entries, i) {
        let i = choose|i: int| is_first_disorder(entries, i);
        r matches Err(fault) && fault@ == crate::fault::Complaint::Encoding(
            out_of_order_text(entries[i].path@, entries[i + 1].path@),
        )
    } else {
        manifest_outcome(r, entries, install)
    }
}

proof fn lemma_neighbours_ascend(entries: Seq<FileEntry>)
    requires
        forall|k: int| 0 <= k < entries.len() - 1 ==> #[trigger] precedes_next(entries, k),
    ensures
        ascending_paths(entries),
{
    assert forall|i: int, j: int|
        #![trigger entries[i], entries[j]]
        0 <= i < j < entries.len() implies crate::ordered::before(
        entries[i].path@,
        entries[j].path@,
    ) by {
        lemma_neighbours_ascend_to(entries, i, j);
    }
}

proof fn lemma_neighbours_ascend_to(entries: Seq<FileEntry>, i: int, j: int)
    requires
        forall|k: int| 0 <= k < entries.len() - 1 ==> #[trigger] precedes_next(entries, k),
        0 <= i < j < entries.len(),
    ensures
        crate::ordered::before(entries[i].path@, entries[j].path@),
    decreases j - i,
{
    assert(precedes_next(entries, j - 1));
    if i < j - 1 {
        lemma_neighbours_ascend_to(entries, i, j - 1);
        crate::ordered::before_is_transitive(
            entries[i].path@,
            entries[j - 1].path@,
            entries[j].path@,
        );
    }
}

proof fn lemma_ascending_is_its_own_sorting(sorted: Seq<FileEntry>, entries: Seq<FileEntry>)
    requires
        ascending_paths(entries),
        crate::ordered::is_sorting(sorted, entries),
    ensures
        sorted == entries,
{
    broadcast use vstd::seq_lib::group_to_multiset_ensures;

    sorted.to_multiset_ensures();
    entries.to_multiset_ensures();
    assert forall|k: int| 0 <= k < sorted.len() - 1 implies !#[trigger] repeats_at(sorted, k) by {
        if repeats_at(sorted, k) {
            let a = sorted[k];
            let b = sorted[k + 1];
            assert(sorted.contains(a) && sorted.contains(b));
            assert(entries.to_multiset().count(a) > 0 && entries.to_multiset().count(b) > 0);
            assert(entries.contains(a) && entries.contains(b));
            let i = choose|i: int| 0 <= i < entries.len() && entries[i] == a;
            let j = choose|j: int| 0 <= j < entries.len() && entries[j] == b;
            crate::ordered::before_is_irreflexive(a.path@);
            if i < j {
                assert(crate::ordered::before(entries[i].path@, entries[j].path@));
            } else if j < i {
                assert(crate::ordered::before(entries[j].path@, entries[i].path@));
            }
            assert(a == b);
            lemma_no_duplicates(entries);
            entries.lemma_multiset_has_no_duplicates();
            assert(entries.to_multiset().contains(a));
            assert(sorted.to_multiset().count(a) == 1);
            lemma_twice(sorted, k);
        }
    }
    lemma_distinct_in_order_ascends(sorted);
    one_tree_has_one_manifest(sorted, entries);
}

proof fn lemma_no_duplicates(entries: Seq<FileEntry>)
    requires
        ascending_paths(entries),
    ensures
        entries.no_duplicates(),
{
    assert forall|i: int, j: int|
        0 <= i < entries.len() && 0 <= j < entries.len() && i != j implies entries[i]
        != entries[j] by {
        crate::ordered::before_is_irreflexive(entries[i].path@);
        if i < j {
            assert(crate::ordered::before(entries[i].path@, entries[j].path@));
        } else {
            assert(crate::ordered::before(entries[j].path@, entries[i].path@));
        }
    }
}

proof fn lemma_twice(s: Seq<FileEntry>, k: int)
    requires
        0 <= k < s.len() - 1,
        s[k] == s[k + 1],
    ensures
        s.to_multiset().count(s[k]) >= 2,
{
    broadcast use vstd::seq_lib::group_to_multiset_ensures;

    let t = s.remove(k);
    vstd::seq_lib::to_multiset_remove(s, k);
    t.to_multiset_ensures();
    assert(t[k] == s[k + 1]);
    assert(t.contains(s[k]));
    assert(t.to_multiset().count(s[k]) >= 1);
}

impl Manifest {
    /// The fields this manifest is written as.
    pub fn encode(&self) -> (fields: Vec<Field>)
        requires
            self.entries@.len() <= u32::MAX,
        ensures
            is_written(fields@, self.entries@, self.install),
    {
        let mut fields: Vec<Field> = Vec::new();
        fields.push(Field::Count(self.entries.len() as u32));
        let mut i: usize = 0;
        let ghost whole = fields_of(self.entries@, self.install);
        while i < self.entries.len()
            invariant
                i <= self.entries@.len(),
                whole == fields_of(self.entries@, self.install),
                fields@.len() == 1 + 3 * i,
                forall|k: int| 0 <= k < fields@.len() ==> #[trigger] fields@[k] == whole[k],
            decreases self.entries@.len() - i,
        {
            let entry: &FileEntry = &self.entries[i];
            fields.push(Field::Text(entry.path.clone()));
            fields.push(Field::Flag(entry.executable));
            fields.push(Field::Object(entry.object.clone()));
            proof {
                assert((1 + 3 * i - 1) / 3 == i && (1 + 3 * i - 1) % 3 == 0);
                assert((2 + 3 * i - 1) / 3 == i && (2 + 3 * i - 1) % 3 == 1);
                assert((3 + 3 * i - 1) / 3 == i && (3 + 3 * i - 1) % 3 == 2);
            }
            i = i + 1;
        }
        match &self.install {
            None => {
                fields.push(Field::Flag(false));
            },
            Some(script) => {
                fields.push(Field::Flag(true));
                fields.push(Field::Text(script.clone()));
            },
        }
        proof {
            assert(fields@ =~= whole);
        }
        fields
    }

    /// Reads a manifest back from its fields. Ascending order is part of the
    /// written form, so a manifest out of order is refused rather than sorted.
    pub fn decode(fields: &Vec<Field>) -> (r: Result<Manifest, Fault>)
        ensures
            (exists|entries: Seq<FileEntry>, install: Option<String>|
                #![trigger is_written(fields@, entries, install)]
                is_written(fields@, entries, install) && decode_outcome(r, entries, install)) || ((
            forall|entries: Seq<FileEntry>, install: Option<String>|
                !#[trigger] is_written(fields@, entries, install)) && (is_disordered(fields@) || (
            r matches Err(fault) && fault@ == crate::fault::Complaint::Encoding(
                malformed_text(),
            )))),
            forall|entries: Seq<FileEntry>, i: int|
                #![trigger begins_with(fields@, entries), is_first_disorder(entries, i)]
                begins_with(fields@, entries) && is_first_disorder(entries, i) ==> (
                r matches Err(fault) && refuses_disorder(fault, entries)),
            r matches Ok(manifest) ==> manifest.wf(),
    {
        match check_order(fields) {
            Err(fault) => {
                proof {
                    lemma_disorder_decides(fields@, fault);
                }
                return Err(fault);
            },
            Ok(_) => {},
        }
        let parts: Option<(Vec<FileEntry>, Option<String>)> = read_fields(fields);
        let (entries, install) = match parts {
            Some((entries, install)) => (entries, install),
            None => {
                return Err(
                    Fault::Encoding(
                        "payload manifest fields are cut short or out of place".to_owned(),
                    ),
                );
            },
        };
        let ghost listed = entries@;
        proof {
            lemma_written_begins(fields@, listed, install);
            assert forall|c: int| !is_first_disorder(listed, c) by {
                if is_first_disorder(listed, c) {
                    assert(is_disordered(fields@));
                }
            }
            lemma_no_first_disorder(listed, listed.len() - 1);
            lemma_neighbours_ascend(listed);
        }
        let ghost script = install;
        let r: Result<Manifest, Fault> = Manifest::new(entries, install);
        proof {
            let sorted = choose|sorted: Seq<FileEntry>|
                #![trigger crate::ordered::is_sorting(sorted, listed)]
                crate::ordered::is_sorting(sorted, listed) && manifest_outcome(r, sorted, script);
            lemma_ascending_is_its_own_sorting(sorted, listed);
            assert(is_written(fields@, listed, script) && decode_outcome(r, listed, script));
        }
        r
    }
}

/// The entries that fields begin with, if they hold them all.
fn read_entries(fields: &Vec<Field>) -> (r: Option<Vec<FileEntry>>)
    ensures
        match r {
            Some(entries) => begins_with(fields@, entries@),
            None => forall|entries: Seq<FileEntry>| !#[trigger] begins_with(fields@, entries),
        },
{
    if fields.len() == 0 {
        return None;
    }
    let count: u32 = match &fields[0] {
        Field::Count(count) => *count,
        _ => {
            return None;
        },
    };
    let total: usize = fields.len();
    let body: u64 = 3 * (count as u64);
    if (total as u64) <= body {
        return None;
    }
    let n: usize = count as usize;
    let mut entries: Vec<FileEntry> = Vec::new();
    let mut i: usize = 0;
    while i < n
        invariant
            i <= n,
            n == count,
            fields@.len() == total,
            total > 3 * n,
            fields@[0] == Field::Count(count),
            entries@.len() == i,
            forall|k: int|
                #![trigger entries@[k]]
                0 <= k < i ==> fields@[1 + 3 * k] == Field::Text(entries@[k].path) && fields@[2 + 3
                    * k] == Field::Flag(entries@[k].executable) && fields@[3 + 3 * k]
                    == Field::Object(entries@[k].object),
        decreases n - i,
    {
        let entry: FileEntry = match (&fields[1 + 3 * i], &fields[2 + 3 * i], &fields[3 + 3 * i]) {
            (Field::Text(path), Field::Flag(executable), Field::Object(object)) => FileEntry {
                path: path.clone(),
                executable: *executable,
                object: object.clone(),
            },
            _ => {
                proof {
                    assert forall|entries: Seq<FileEntry>| !#[trigger] begins_with(
                        fields@,
                        entries,
                    ) by {
                        if begins_with(fields@, entries) {
                            let entry = entries[i as int];
                            assert(fields@[1 + 3 * i] == Field::Text(entry.path));
                        }
                    }
                }
                return None;
            },
        };
        entries.push(entry);
        i = i + 1;
    }
    Some(entries)
}

/// Refuses fields that hold all the entries of a manifest, where those are out
/// of order. That is decided as soon as the last entry is read, before anything
/// that follows it.
pub fn check_order(fields: &Vec<Field>) -> (r: Result<(), Fault>)
    ensures
        match r {
            Ok(_) => !is_disordered(fields@),
            Err(fault) => exists|entries: Seq<FileEntry>| #[trigger]
                begins_with(fields@, entries) && refuses_disorder(fault, entries),
        },
{
    let entries: Vec<FileEntry> = match read_entries(fields) {
        Some(entries) => entries,
        None => {
            return Ok(());
        },
    };
    let mut i: usize = 0;
    while entries.len() > 0 && i < entries.len() - 1
        invariant
            begins_with(fields@, entries@),
            i <= entries@.len(),
            entries@.len() > 0 ==> i <= entries@.len() - 1,
            forall|k: int| 0 <= k < i ==> #[trigger] precedes_next(entries@, k),
        decreases entries@.len() - i,
    {
        if !comes_before(entries[i].path.as_str(), entries[i + 1].path.as_str()) {
            let a: String = quote(entries[i].path.as_str());
            let b: String = quote(entries[i + 1].path.as_str());
            let mut message: String = cat3(
                "payload manifest entries are out of order: ",
                a.as_str(),
                " does not precede ",
            );
            message.append(b.as_str());
            proof {
                assert(!precedes_next(entries@, i as int));
                assert(is_first_disorder(entries@, i as int));
            }
            let fault: Fault = Fault::Encoding(message);
            assert(refuses_disorder(fault, entries@));
            return Err(fault);
        }
        i = i + 1;
    }
    proof {
        assert forall|others: Seq<FileEntry>, c: int| begins_with(fields@, others)
            && is_first_disorder(others, c) implies false by {
            lemma_one_beginning(fields@, entries@, others);
            assert(precedes_next(entries@, c));
        }
    }
    Ok(())
}

proof fn lemma_one_beginning(fields: Seq<Field>, a: Seq<FileEntry>, b: Seq<FileEntry>)
    requires
        begins_with(fields, a),
        begins_with(fields, b),
    ensures
        a == b,
{
    assert(a.len() == b.len());
    assert forall|i: int| 0 <= i < a.len() implies a[i] == b[i] by {
        let x = a[i];
        let y = b[i];
        assert(fields[1 + 3 * i] == Field::Text(x.path) && fields[1 + 3 * i] == Field::Text(
            y.path,
        ));
    }
    assert(a =~= b);
}

proof fn lemma_written_begins(fields: Seq<Field>, entries: Seq<FileEntry>, install: Option<String>)
    requires
        is_written(fields, entries, install),
    ensures
        begins_with(fields, entries),
{
    assert(fields[0] == Field::Count(entries.len() as u32));
    assert forall|k: int|
        #![trigger entries[k]]
        0 <= k < entries.len() implies fields[1 + 3 * k] == Field::Text(entries[k].path) && fields[2
        + 3 * k] == Field::Flag(entries[k].executable) && fields[3 + 3 * k] == Field::Object(
        entries[k].object,
    ) by {
        lemma_written_entry(fields, entries, install, k);
    }
}

proof fn lemma_no_first_disorder(entries: Seq<FileEntry>, n: int)
    requires
        forall|c: int| !is_first_disorder(entries, c),
        n <= entries.len() - 1,
    ensures
        forall|k: int| 0 <= k < n ==> #[trigger] precedes_next(entries, k),
    decreases n,
{
    if n > 0 {
        lemma_no_first_disorder(entries, n - 1);
        assert(!is_first_disorder(entries, n - 1));
    }
}

/// Where the entries are out of order, that is what reading the fields comes to.
proof fn lemma_disorder_decides(fields: Seq<Field>, fault: Fault)
    requires
        exists|entries: Seq<FileEntry>| #[trigger]
            begins_with(fields, entries) && refuses_disorder(fault, entries),
    ensures
        is_disordered(fields),
        forall|entries: Seq<FileEntry>| #[trigger]
            begins_with(fields, entries) ==> refuses_disorder(fault, entries),
        forall|entries: Seq<FileEntry>, install: Option<String>| #[trigger]
            is_written(fields, entries, install) ==> decode_outcome(
                Err::<Manifest, Fault>(fault),
                entries,
                install,
            ),
{
    let first = choose|entries: Seq<FileEntry>| #[trigger]
        begins_with(fields, entries) && refuses_disorder(fault, entries);
    let i = choose|i: int| #[trigger]
        is_first_disorder(first, i) && fault@ == crate::fault::Complaint::Encoding(
            out_of_order_text(first[i].path@, first[i + 1].path@),
        );
    assert(begins_with(fields, first) && is_first_disorder(first, i));
    assert forall|entries: Seq<FileEntry>| #[trigger]
        begins_with(fields, entries) implies refuses_disorder(fault, entries) by {
        lemma_one_beginning(fields, first, entries);
    }
    assert forall|entries: Seq<FileEntry>, install: Option<String>| #[trigger]
        is_written(fields, entries, install) implies decode_outcome(
        Err::<Manifest, Fault>(fault),
        entries,
        install,
    ) by {
        lemma_written_begins(fields, entries, install);
        lemma_one_beginning(fields, first, entries);
        let c = choose|c: int| is_first_disorder(entries, c);
        assert(is_first_disorder(entries, i));
        assert(c == i) by {
            if c < i {
                assert(precedes_next(entries, c));
            } else if i < c {
                assert(precedes_next(entries, i));
            }
        }
    }
}

/// The parts a manifest's fields hold, if they are a manifest's.
fn read_fields(fields: &Vec<Field>) -> (r: Option<(Vec<FileEntry>, Option<String>)>)
    ensures
        match r {
            Some((entries, install)) => is_written(fields@, entries@, install),
            None => forall|entries: Seq<FileEntry>, install: Option<String>|
                !#[trigger] is_written(fields@, entries, install),
        },
{
    let entries: Vec<FileEntry> = match read_entries(fields) {
        Some(entries) => entries,
        None => {
            proof {
                assert forall|entries: Seq<FileEntry>, install: Option<String>|
                    !#[trigger] is_written(fields@, entries, install) by {
                    if is_written(fields@, entries, install) {
                        lemma_written_begins(fields@, entries, install);
                    }
                }
            }
            return None;
        },
    };
    let n: usize = entries.len();
    if fields.len() - 3 * n < 2 {
        proof {
            assert forall|e: Seq<FileEntry>, install: Option<String>|
                !#[trigger] is_written(fields@, e, install) by {
                if is_written(fields@, e, install) {
                    lemma_written_begins(fields@, e, install);
                    assert(e.len() == n);
                    assert(fields@.len() == fields_of(e, install).len());
                }
            }
        }
        return None;
    }
    let at: usize = 1 + 3 * n;
    match &fields[at] {
        Field::Flag(false) => {
            if fields.len() == at + 1 {
                proof {
                    lemma_parts_are_written(fields@, entries@, None);
                }
                return Some((entries, None));
            }
        },
        Field::Flag(true) => {
            if fields.len() == at + 2 {
                match &fields[at + 1] {
                    Field::Text(script) => {
                        let script: String = script.clone();
                        proof {
                            lemma_parts_are_written(fields@, entries@, Some(script));
                        }
                        return Some((entries, Some(script)));
                    },
                    _ => {},
                }
            }
        },
        _ => {},
    }
    proof {
        assert forall|e: Seq<FileEntry>, install: Option<String>|
            !#[trigger] is_written(fields@, e, install) by {
            if is_written(fields@, e, install) {
                assert(fields@[0] == Field::Count(e.len() as u32));
                assert(e.len() == n);
                assert(fields@[at as int] == Field::Flag(install is Some));
                assert(fields@.len() == fields_of(e, install).len());
                if install is Some {
                    assert(fields@[at + 1] == Field::Text(install->0));
                }
            }
        }
    }
    None
}

proof fn lemma_written_entry(
    fields: Seq<Field>,
    entries: Seq<FileEntry>,
    install: Option<String>,
    i: int,
)
    requires
        is_written(fields, entries, install),
        fields.len() > 0,
        fields[0] matches Field::Count(count) && 0 <= i < count,
    ensures
        fields[1 + 3 * i] == Field::Text(entries[i].path),
        fields[2 + 3 * i] == Field::Flag(entries[i].executable),
        fields[3 + 3 * i] == Field::Object(entries[i].object),
{
    assert(fields[0] == Field::Count(entries.len() as u32));
    assert((1 + 3 * i - 1) / 3 == i && (1 + 3 * i - 1) % 3 == 0);
    assert((2 + 3 * i - 1) / 3 == i && (2 + 3 * i - 1) % 3 == 1);
    assert((3 + 3 * i - 1) / 3 == i && (3 + 3 * i - 1) % 3 == 2);
}

proof fn lemma_parts_are_written(
    fields: Seq<Field>,
    entries: Seq<FileEntry>,
    install: Option<String>,
)
    requires
        entries.len() <= u32::MAX,
        fields.len() == 3 * entries.len() + 2 + if install is Some {
            1int
        } else {
            0int
        },
        fields[0] == Field::Count(entries.len() as u32),
        forall|k: int|
            #![trigger entries[k]]
            0 <= k < entries.len() ==> fields[1 + 3 * k] == Field::Text(entries[k].path) && fields[2
                + 3 * k] == Field::Flag(entries[k].executable) && fields[3 + 3 * k]
                == Field::Object(entries[k].object),
        fields[(3 * entries.len() + 1) as int] == Field::Flag(install is Some),
        install matches Some(script) ==> fields[(3 * entries.len() + 2) as int] == Field::Text(script),
    ensures
        is_written(fields, entries, install),
{
    let whole = fields_of(entries, install);
    assert forall|j: int| 0 <= j < fields.len() implies fields[j] == whole[j] by {
        if 0 < j <= 3 * entries.len() {
            let k = (j - 1) / 3;
            assert(0 <= k < entries.len());
            let entry = entries[k];
            let rest = (j - 1) % 3;
            assert(j == 1 + 3 * k + rest);
        }
    }
    assert(fields =~= whole);
}

/// Reading a manifest back gives the manifest that was written: only its own
/// parts are written as its fields, and those are in order and pass every check.
pub proof fn a_manifest_reads_back(manifest: Manifest, fields: Seq<Field>, r: Result<Manifest, Fault>)
    requires
        manifest.wf(),
        is_written(fields, manifest.entries@, manifest.install),
        exists|entries: Seq<FileEntry>, install: Option<String>|
            #![trigger is_written(fields, entries, install)]
            is_written(fields, entries, install) && decode_outcome(r, entries, install),
    ensures
        r matches Ok(back) && back.entries@ == manifest.entries@ && back.install
            == manifest.install,
{
    let (entries, install) = choose|entries: Seq<FileEntry>, install: Option<String>|
        #![trigger is_written(fields, entries, install)]
        is_written(fields, entries, install) && decode_outcome(r, entries, install);
    a_written_form_is_one_manifest_s(
        fields,
        entries,
        install,
        manifest.entries@,
        manifest.install,
    );
    assert forall|i: int| !is_first_disorder(entries, i) by {
        if is_first_disorder(entries, i) {
            assert(crate::ordered::before(entries[i].path@, entries[i + 1].path@));
        }
    }
    assert forall|i: int| !is_first_repeat(entries, i) by {
        if is_first_repeat(entries, i) {
            assert(crate::ordered::before(entries[i].path@, entries[i + 1].path@));
            crate::ordered::before_is_irreflexive(entries[i].path@);
        }
    }
    assert forall|i: int| !is_first_unportable(entries, i) by {
        if is_first_unportable(entries, i) {
            assert(is_portable(manifest.entries@[i].path@));
        }
    }
}

/// No two manifests are written the same way.
pub proof fn a_written_form_is_one_manifest_s(
    fields: Seq<Field>,
    a: Seq<FileEntry>,
    a_install: Option<String>,
    b: Seq<FileEntry>,
    b_install: Option<String>,
)
    requires
        is_written(fields, a, a_install),
        is_written(fields, b, b_install),
    ensures
        a == b,
        a_install == b_install,
{
    assert(fields[0] == Field::Count(a.len() as u32));
    assert(fields[0] == Field::Count(b.len() as u32));
    assert(a.len() == b.len());
    assert forall|i: int| 0 <= i < a.len() implies a[i] == b[i] by {
        lemma_written_entry(fields, a, a_install, i);
        lemma_written_entry(fields, b, b_install, i);
    }
    assert(a =~= b);
    let at: int = (3 * a.len() + 1) as int;
    assert(fields[at] == Field::Flag(a_install is Some));
    assert(fields[at] == Field::Flag(b_install is Some));
    if a_install is Some {
        assert(fields[at + 1] == Field::Text(a_install->0));
        assert(fields[at + 1] == Field::Text(b_install->0));
    }
}

} // verus!
