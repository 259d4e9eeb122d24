use std::collections::BTreeMap;

use sima_pipeline::fault::Fault;
use sima_pipeline::ingest::{unreadable_script, Child, Found, Walk, WalkAction};
use sima_pipeline::payload::{
    check_order, next_kind, validate_path, Field, FieldKind, FileEntry, Manifest,
};
use sima_pipeline::program_tree::{closure, materialize, mode_of, EXECUTABLE_MODE, REGULAR_MODE};

/// The most bytes a transferred object may have.
const CAP: u32 = 256 * 1024 * 1024;

/// A file system in memory.
#[derive(Clone)]
enum Node {
    Directory(BTreeMap<Vec<u8>, Node>),
    File { bytes: Vec<u8>, mode: u32 },
    Sparse { len: u64 },
    Link,
}

fn file(bytes: &[u8], mode: u32) -> Node {
    Node::File {
        bytes: bytes.to_vec(),
        mode,
    }
}

/// Puts `node` at `path` under `root`, making the directories on the way.
fn put(root: &mut Node, path: &str, node: Node) {
    let Node::Directory(children) = root else {
        panic!("{path} is under something that is no directory");
    };
    match path.split_once('/') {
        None => {
            children.insert(path.as_bytes().to_vec(), node);
        }
        Some((head, rest)) => {
            let child = children
                .entry(head.as_bytes().to_vec())
                .or_insert_with(|| Node::Directory(BTreeMap::new()));
            put(child, rest, node);
        }
    }
}

fn directory(files: &[(&str, &[u8], u32)]) -> Node {
    let mut root = Node::Directory(BTreeMap::new());
    for (path, bytes, mode) in files {
        put(&mut root, path, file(bytes, *mode));
    }
    root
}

/// What stands at `place`, which begins with `root`.
fn at<'a>(tree: &'a Node, root: &str, place: &str) -> &'a Node {
    let rest = place.strip_prefix(root).expect("a place under the root");
    let mut node = tree;
    for name in rest.split('/').filter(|name| !name.is_empty()) {
        let Node::Directory(children) = node else {
            panic!("{place} is under something that is no directory");
        };
        node = children.get(name.as_bytes()).expect("a listed child");
    }
    node
}

/// The objects stored, by digest.
type Objects = BTreeMap<String, Vec<u8>>;

fn digest_of(bytes: &[u8]) -> String {
    bytes.iter().map(|byte| format!("{byte:02x}")).collect()
}

/// Takes in the payload `tree` at `root`, as the ingest does, and answers the
/// manifest.
fn ingest(
    tree: &Node,
    root: &str,
    install: Option<&[u8]>,
    objects: &mut Objects,
) -> Result<Manifest, Fault> {
    let install = match install {
        None => None,
        Some(bytes) => Some(
            String::from_utf8(bytes.to_vec())
                .map_err(|why| unreadable_script("install.sh", &why.to_string()))?,
        ),
    };
    let mut walk = match tree {
        Node::Directory(_) => Walk::of_directory(root.to_string()),
        _ => Walk::of_file(
            root.to_string(),
            root.rsplit('/').next().map(str::to_string),
        ),
    };
    loop {
        let found = match walk.next() {
            WalkAction::Done => break,
            WalkAction::Refuse(fault) => return Err(fault),
            WalkAction::Look(place) => match at(tree, root, place) {
                Node::Directory(children) => {
                    // Listed backwards: the order a directory lists its
                    // children in is nobody's business.
                    let listed = children
                        .keys()
                        .rev()
                        .map(|bytes| Child {
                            bytes: bytes.clone(),
                            name: String::from_utf8(bytes.clone()).ok(),
                            shown: format!("{place}/{}", String::from_utf8_lossy(bytes)),
                        })
                        .collect();
                    Found::Directory(listed)
                }
                Node::File { bytes, mode } => Found::File {
                    regular: true,
                    len: bytes.len() as u64,
                    mode: *mode,
                },
                Node::Sparse { len } => Found::File {
                    regular: true,
                    len: *len,
                    mode: 0o644,
                },
                Node::Link => Found::File {
                    regular: false,
                    len: 0,
                    mode: 0o777,
                },
            },
            WalkAction::Store(place) => {
                let Node::File { bytes, .. } = at(tree, root, place) else {
                    panic!("only a file is stored");
                };
                let digest = digest_of(bytes);
                objects.insert(digest.clone(), bytes.clone());
                Found::Stored(digest)
            }
        };
        walk = walk.step(found, CAP)?;
    }
    walk.finish(root, install)
}

fn refusal<T: std::fmt::Debug>(outcome: Result<T, Fault>) -> String {
    match outcome {
        Err(Fault::Validation(message)) => message,
        other => panic!("expected a validation error, got {other:?}"),
    }
}

const SCRIPT: &[u8] = b"#!/bin/sh\nexit 0\n";

fn tree() -> Node {
    directory(&[
        ("run.sh", b"#!/bin/sh\ntrue\n", 0o755),
        ("assets/w.bin", b"weights", 0o644),
    ])
}

fn taken_in(tree: &Node, install: Option<&[u8]>) -> Result<Manifest, Fault> {
    ingest(tree, "/work/payload", install, &mut Objects::new())
}

fn entry(path: &str, executable: bool, bytes: &[u8]) -> FileEntry {
    FileEntry {
        path: path.to_string(),
        executable,
        object: digest_of(bytes),
    }
}

fn paths(manifest: &Manifest) -> Vec<&str> {
    manifest
        .entries
        .iter()
        .map(|entry| entry.path.as_str())
        .collect()
}

#[test]
fn a_manifest_round_trips_through_its_canonical_bytes() {
    let built = Manifest::new(
        vec![
            entry("run.sh", true, b"script"),
            entry("assets/w.bin", false, b"weights"),
        ],
        Some("#!/bin/sh\ninstall\n".to_string()),
    )
    .expect("a manifest");
    assert_eq!(Manifest::decode(&built.encode()), Ok(built.clone()));
    assert_eq!(paths(&built), ["assets/w.bin", "run.sh"]);
}

#[test]
fn a_manifest_without_a_script_round_trips_too() {
    let built =
        Manifest::new(vec![entry("program", true, b"program")], None).expect("a manifest");
    assert_eq!(built.install(), None);
    assert_eq!(Manifest::decode(&built.encode()), Ok(built));
}

#[test]
fn a_manifest_is_written_field_by_field() {
    let built = Manifest::new(
        vec![entry("program", true, b"p")],
        Some("install".to_string()),
    )
    .expect("a manifest");
    assert_eq!(
        built.encode(),
        vec![
            Field::Count(1),
            Field::Text("program".to_string()),
            Field::Flag(true),
            Field::Object("70".to_string()),
            Field::Flag(true),
            Field::Text("install".to_string()),
        ]
    );
}

#[test]
fn a_manifest_naming_no_file_is_refused() {
    assert!(refusal(Manifest::new(Vec::new(), None)).contains("no file"));
}

#[test]
fn several_files_without_a_script_are_refused_on_both_sides() {
    let entries = vec![entry("a", true, b"a"), entry("b", false, b"b")];
    assert!(refusal(Manifest::new(entries.clone(), None)).contains("install script"));
    let mut fields = vec![Field::Count(2)];
    for entry in &entries {
        fields.push(Field::Text(entry.path.clone()));
        fields.push(Field::Flag(entry.executable));
        fields.push(Field::Object(entry.object.clone()));
    }
    fields.push(Field::Flag(false));
    assert!(refusal(Manifest::decode(&fields)).contains("install script"));
}

#[test]
fn a_manifest_whose_entries_are_out_of_order_fails_to_decode() {
    let mut fields = vec![Field::Count(2)];
    for path in ["b", "a"] {
        fields.push(Field::Text(path.to_string()));
        fields.push(Field::Flag(false));
        fields.push(Field::Object(digest_of(path.as_bytes())));
    }
    fields.push(Field::Flag(true));
    fields.push(Field::Text("install".to_string()));
    match Manifest::decode(&fields) {
        Err(Fault::Encoding(message)) => assert!(message.contains("out of order"), "{message}"),
        other => panic!("expected an encoding error, got {other:?}"),
    }
}

#[test]
fn entries_out_of_order_are_refused_whatever_follows_them() {
    let mut fields = vec![Field::Count(2)];
    for path in ["b", "a"] {
        assert_eq!(check_order(&fields), Ok(()), "not every entry is read");
        fields.push(Field::Text(path.to_string()));
        fields.push(Field::Flag(false));
        fields.push(Field::Object(digest_of(path.as_bytes())));
    }
    let refused = Fault::Encoding(
        "payload manifest entries are out of order: \"b\" does not precede \"a\"".to_string(),
    );
    assert_eq!(check_order(&fields), Err(refused.clone()));
    assert_eq!(Manifest::decode(&fields), Err(refused.clone()));
    fields.push(Field::Count(1));
    assert_eq!(Manifest::decode(&fields), Err(refused));
}

#[test]
fn a_manifest_is_read_kind_by_kind() {
    let kind = |field: &Field| match field {
        Field::Count(_) => FieldKind::Count,
        Field::Text(_) => FieldKind::Text,
        Field::Flag(_) => FieldKind::Flag,
        Field::Object(_) => FieldKind::Object,
    };
    let lone = Manifest::new(vec![entry("program", true, b"p")], None).expect("a manifest");
    let several = Manifest::new(
        vec![entry("a", true, b"a"), entry("b", false, b"b")],
        Some("install".to_string()),
    )
    .expect("a manifest");
    for manifest in [lone, several] {
        let fields = manifest.encode();
        for read in 0..fields.len() {
            assert_eq!(next_kind(&fields[..read].to_vec()), Some(kind(&fields[read])));
        }
        assert_eq!(next_kind(&fields), None);
    }
    assert_eq!(next_kind(&vec![]), Some(FieldKind::Count));
    assert_eq!(next_kind(&vec![Field::Flag(true)]), None);
    assert_eq!(next_kind(&vec![Field::Count(0)]), Some(FieldKind::Flag));
}

#[test]
fn fields_that_are_no_manifest_fail_to_decode() {
    for fields in [
        vec![],
        vec![Field::Flag(true)],
        vec![Field::Count(1), Field::Flag(false)],
        vec![Field::Count(0), Field::Flag(true)],
        vec![Field::Count(0), Field::Flag(false), Field::Flag(false)],
    ] {
        assert!(
            matches!(Manifest::decode(&fields), Err(Fault::Encoding(_))),
            "{fields:?}"
        );
    }
}

#[test]
fn a_path_named_twice_is_refused_naming_it() {
    let twice = vec![entry("a", true, b"x"), entry("a", false, b"y")];
    assert_eq!(
        refusal(Manifest::new(twice, Some("install".to_string()))),
        "a payload manifest names \"a\" twice"
    );
}

#[test]
fn a_path_that_means_something_else_elsewhere_is_refused() {
    for path in [
        "",
        "/etc/passwd",
        "../escape",
        "a/../b",
        "./a",
        "a//b",
        "a\\b",
    ] {
        let message = refusal(Manifest::new(vec![entry(path, false, b"x")], None));
        assert!(message.contains("payload path"), "{path:?}: {message}");
        assert_eq!(
            validate_path(path),
            Err(Fault::Validation(format!(
                "payload path {path:?} is not a relative path that means the same thing on every \
                 machine"
            )))
        );
    }
    assert_eq!(validate_path("a/b.c/..d"), Ok(()));
}

#[test]
fn one_tree_ingests_to_one_digest_however_often_it_is_ingested() {
    let tree = tree();
    let first = taken_in(&tree, Some(SCRIPT)).expect("a manifest");
    let second = taken_in(&tree, Some(SCRIPT)).expect("a manifest");
    assert_eq!(first.encode(), second.encode());
}

#[test]
fn the_digest_moves_with_content_with_path_and_with_the_execute_bit() {
    let written = |tree: &Node| taken_in(tree, Some(SCRIPT)).expect("a manifest").encode();
    let base = written(&tree());
    let changed = directory(&[
        ("run.sh", b"#!/bin/sh\ntrue\n", 0o755),
        ("assets/w.bin", b"other", 0o644),
    ]);
    assert_ne!(base, written(&changed), "content enters it");
    let moved = directory(&[
        ("run.sh", b"#!/bin/sh\ntrue\n", 0o755),
        ("assets/v.bin", b"other", 0o644),
    ]);
    assert_ne!(written(&changed), written(&moved), "the path enters it too");
    let runs = directory(&[
        ("run.sh", b"#!/bin/sh\ntrue\n", 0o755),
        ("assets/v.bin", b"other", 0o755),
    ]);
    assert_ne!(written(&moved), written(&runs), "so does the execute bit");
}

#[test]
fn the_install_script_enters_the_digest() {
    let base = taken_in(&tree(), Some(SCRIPT)).expect("a manifest");
    let other = taken_in(&tree(), Some(b"#!/bin/sh\nexit 1\n")).expect("a manifest");
    assert_ne!(base.encode(), other.encode());
}

#[test]
fn a_single_file_payload_is_a_manifest_of_one_entry_named_after_it() {
    let manifest = ingest(
        &file(b"#!/bin/sh\ntrue\n", 0o755),
        "/work/program.sh",
        None,
        &mut Objects::new(),
    )
    .expect("a manifest");
    let lone = manifest.lone_file().expect("one file");
    assert_eq!(lone.path, "program.sh");
    assert!(lone.executable);
    assert_eq!(manifest.install(), None);
}

#[test]
fn nested_directories_carry_their_paths() {
    let tree = directory(&[("a/b/c/deep.txt", b"deep", 0o644), ("top.txt", b"top", 0o644)]);
    let manifest = taken_in(&tree, Some(b"true\n")).expect("a manifest");
    assert_eq!(paths(&manifest), ["a/b/c/deep.txt", "top.txt"]);
}

#[test]
fn the_walk_order_is_corrected_to_the_canonical_one() {
    let tree = directory(&[("a/z.txt", b"nested", 0o644), ("a.txt", b"sibling", 0o644)]);
    let manifest = taken_in(&tree, Some(b"true\n")).expect("a manifest");
    assert_eq!(paths(&manifest), ["a.txt", "a/z.txt"]);
    assert_eq!(Manifest::decode(&manifest.encode()), Ok(manifest));
}

#[test]
fn a_symlink_in_a_payload_is_refused_naming_it() {
    let mut tree = tree();
    put(&mut tree, "link", Node::Link);
    let message = refusal(taken_in(&tree, Some(SCRIPT)));
    assert!(message.contains("link"), "names the entry: {message}");
    assert!(message.contains("regular file"), "{message}");
    assert_eq!(
        message,
        "payload entry /work/payload/link is not a regular file; a payload carries files and \
         directories, and what a link points at is this machine's alone"
    );
}

#[test]
fn a_file_name_that_is_not_utf_8_is_refused_naming_it() {
    let mut tree = tree();
    if let Node::Directory(children) = &mut tree {
        children.insert(b"\xff\xfe".to_vec(), file(b"bytes", 0o644));
    }
    let message = refusal(taken_in(&tree, Some(SCRIPT)));
    assert!(message.contains("UTF-8"), "{message}");
    assert!(message.contains("/work/payload/"), "{message}");
}

#[test]
fn an_empty_directory_payload_is_refused_naming_it() {
    let mut empty = Node::Directory(BTreeMap::new());
    put(&mut empty, "still/empty", Node::Directory(BTreeMap::new()));
    let message = refusal(ingest(
        &empty,
        "/work/empty",
        Some(b"true\n"),
        &mut Objects::new(),
    ));
    assert_eq!(message, "payload /work/empty holds no file");
}

#[test]
fn a_file_too_large_to_cross_the_sync_is_refused_naming_it() {
    let huge = Node::Sparse {
        len: u64::from(CAP) + 1,
    };
    let message = refusal(ingest(
        &huge,
        "/work/huge.bin",
        None,
        &mut Objects::new(),
    ));
    assert!(message.contains("huge.bin"), "names the entry: {message}");
    assert!(message.contains("cap"), "{message}");
    assert_eq!(
        message,
        "payload entry /work/huge.bin is 268435457 bytes, above the 268435456 byte cap a \
         transferred object may reach"
    );
}

#[test]
fn several_ingested_files_without_a_script_are_refused() {
    assert!(refusal(taken_in(&tree(), None)).contains("install script"));
}

#[test]
fn an_install_script_that_is_not_utf_8_is_refused() {
    assert!(refusal(taken_in(&tree(), Some(b"\xff\xfe"))).contains("UTF-8"));
}

#[test]
fn a_materialized_payload_is_the_tree_that_was_ingested() {
    let mut objects = Objects::new();
    let manifest =
        ingest(&tree(), "/work/payload", Some(SCRIPT), &mut objects).expect("a manifest");
    let mut written = BTreeMap::new();
    for placement in materialize(&manifest, "/dest") {
        written.insert(
            placement.path,
            (objects[&placement.object].clone(), placement.mode),
        );
    }
    let mut expected = BTreeMap::new();
    expected.insert(
        "/dest/run.sh".to_string(),
        (b"#!/bin/sh\ntrue\n".to_vec(), 0o755),
    );
    expected.insert(
        "/dest/assets/w.bin".to_string(),
        (b"weights".to_vec(), 0o644),
    );
    assert_eq!(written, expected);
    assert_eq!(manifest.install(), Some("#!/bin/sh\nexit 0\n"));
}

/// What is materialized, taken in again, is the payload it was.
#[test]
fn a_materialized_payload_ingests_to_the_digest_it_came_from() {
    let tree = directory(&[
        ("run.sh", b"#!/bin/sh\ntrue\n", 0o755),
        ("assets/w.bin", b"weights", 0o600),
        ("assets/more/x", b"", 0o644),
        ("assets.txt", b"beside", 0o644),
    ]);
    let mut objects = Objects::new();
    let manifest =
        ingest(&tree, "/work/payload", Some(SCRIPT), &mut objects).expect("a manifest");
    let mut back = Node::Directory(BTreeMap::new());
    for placement in materialize(&manifest, "/dest") {
        let path = placement.path.strip_prefix("/dest/").expect("under the destination");
        put(&mut back, path, file(&objects[&placement.object], placement.mode));
    }
    let again = ingest(&back, "/dest", Some(SCRIPT), &mut objects).expect("a manifest");
    assert_eq!(again.encode(), manifest.encode());
    assert_eq!(again, manifest);
}

#[test]
fn the_execute_bit_survives_the_round_trip() {
    for (mode, expected) in [
        (0o755, EXECUTABLE_MODE),
        (0o644, REGULAR_MODE),
        (0o710, EXECUTABLE_MODE),
        (0o600, REGULAR_MODE),
    ] {
        let manifest = ingest(
            &file(b"data\n", mode),
            "/work/program.sh",
            None,
            &mut Objects::new(),
        )
        .expect("a manifest");
        let placed = materialize(&manifest, "/dest");
        assert_eq!(placed[0].path, "/dest/program.sh");
        assert_eq!(placed[0].mode, expected);
    }
    assert_eq!(mode_of(true), 0o755);
    assert_eq!(mode_of(false), 0o644);
}

#[test]
fn the_closure_is_the_manifest_and_every_file_it_names() {
    let mut objects = Objects::new();
    let manifest =
        ingest(&tree(), "/work/payload", Some(SCRIPT), &mut objects).expect("a manifest");
    let closure = closure("digest".to_string(), &manifest);
    assert_eq!(closure.len(), 3, "the manifest and its two files");
    assert_eq!(closure[0], "digest", "the manifest leads");
    for object in &closure[1..] {
        assert!(objects.contains_key(object), "{object} is stored");
    }
    for placement in materialize(&manifest, "/dest") {
        assert!(closure.contains(&placement.object));
    }
}

#[test]
fn the_manifest_names_every_object_the_payload_needs() {
    let mut stored = Objects::new();
    let manifest =
        ingest(&tree(), "/work/payload", Some(SCRIPT), &mut stored).expect("a manifest");
    let objects = manifest.objects();
    assert_eq!(objects.len(), 2);
    for object in objects {
        assert!(stored.contains_key(&object), "{object} is stored");
    }
}

#[test]
fn an_answer_to_something_else_leaves_a_walk_as_it_is() {
    let walk = Walk::of_directory("/work".to_string());
    assert_eq!(
        walk.clone().step(Found::Stored("d".to_string()), CAP),
        Ok(walk.clone())
    );
    let unnamed = Walk::of_file("/work/?".to_string(), None);
    assert_eq!(
        unnamed.clone().step(Found::Directory(vec![]), CAP),
        Ok(unnamed.clone())
    );
    assert_eq!(
        unnamed.next(),
        WalkAction::Refuse(Fault::Validation(
            "payload entry /work/? has no name a manifest can carry; a payload's file names are \
             UTF-8"
                .to_string()
        ))
    );
}
