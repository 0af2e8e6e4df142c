use pg_relay::storage::{ObjectMeta, StorageError, StorageResult};
use pg_relay::storage_local::{
    check_absent, check_match, etag_name, read_error, Access, ObjectWrite, OldFile, ReadFailure,
    WriteAction, WriteProgress,
};
use pg_relay::storage_walk::{parent_path, Directory, ListAction, ListEvent, Lister};
use std::collections::{BTreeMap, BTreeSet};

fn stamp() -> chrono::NaiveDateTime {
    chrono::NaiveDate::from_ymd_opt(2026, 3, 4).unwrap().and_hms_opt(5, 6, 7).unwrap()
}

fn missing() -> ReadFailure {
    ReadFailure { not_found: true, message: "no such file".to_string() }
}

fn broken() -> ReadFailure {
    ReadFailure { not_found: false, message: "io".to_string() }
}

fn file(name: &str, path: &str) -> ListEvent {
    ListEvent::File { name: name.to_string(), path: path.to_string() }
}

#[test]
fn etag_files_stand_beside_their_objects() {
    assert_eq!(etag_name("a/b.json"), "a/b.json.etag");
}

#[test]
fn read_errors_tell_missing_files_from_broken_ones() {
    assert!(matches!(read_error("k", missing()), StorageError::NotFound(k) if k == "k"));
    assert!(matches!(read_error("k", broken()), StorageError::Backend(m) if m == "io"));
}

#[test]
fn conditional_writes_are_checked() {
    assert!(check_match("k", Ok("e1".to_string()), "e1").is_ok());
    match check_match("k", Ok("e2".to_string()), "e1") {
        Err(StorageError::EtagMismatch { key, expected, got }) => {
            assert_eq!((key.as_str(), expected.as_str(), got.as_str()), ("k", "e1", "e2"));
        }
        _ => panic!("not refused"),
    }
    assert!(matches!(check_match("k", Err(missing()), "e"), Err(StorageError::NotFound(_))));
    assert!(matches!(check_match("k", Err(broken()), "e"), Err(StorageError::Backend(_))));
    assert!(check_absent("k", false).is_ok());
    let e = check_absent("k", true).err().unwrap();
    assert_eq!(e.message(), "etag mismatch on k: expected (absent), got (present)");
}

/// Files in memory, some accesses to which fail.
struct Disk {
    files: BTreeMap<String, Vec<u8>>,
    failing: Vec<WriteAction>,
}

impl Disk {
    fn new(files: &[(&str, &str)], failing: &[WriteAction]) -> Self {
        let files = files.iter().map(|(n, c)| (n.to_string(), c.as_bytes().to_vec())).collect();
        Disk { files, failing: failing.to_vec() }
    }

    fn rename(&mut self, from: &str, to: &str) {
        let content = self.files.remove(from).unwrap();
        self.files.insert(to.to_string(), content);
    }

    fn access(&mut self, w: &ObjectWrite, data: &str) -> Access {
        if self.failing.contains(&w.action) {
            return Access::Failed(format!("{:?} failed", w.action));
        }
        let temporary_etag = w.temporary_etag();
        match w.action {
            WriteAction::MakeParent => {}
            WriteAction::WriteTemporary => {
                self.files.insert(w.temporary.clone(), data.as_bytes().to_vec());
            }
            WriteAction::WriteTemporaryEtag => {
                self.files.insert(temporary_etag, w.etag.as_bytes().to_vec());
            }
            WriteAction::KeepOld => match self.files.get(&w.key) {
                Some(content) => {
                    let content = content.clone();
                    self.files.insert(w.old_name(), content);
                }
                None => return Access::Missing,
            },
            WriteAction::Rename => self.rename(&w.temporary, &w.key),
            WriteAction::RenameEtag => self.rename(&temporary_etag, &etag_name(&w.key)),
            WriteAction::RestoreOld => self.rename(&w.old_name(), &w.key),
            WriteAction::RemoveNew => {
                self.files.remove(&w.key);
            }
            WriteAction::RemoveOld => {
                self.files.remove(&w.old_name());
            }
            WriteAction::RemoveTemporaryEtag => {
                self.files.remove(&temporary_etag);
            }
            WriteAction::RemoveTemporary => {
                self.files.remove(&w.temporary);
            }
        }
        Access::Done
    }

    fn write(&mut self, key: &str, data: &str, etag: &str) -> StorageResult<ObjectMeta> {
        let size = data.len() as u64;
        let mut write = ObjectWrite::begin_with(key, size, "id-1", etag.to_string());
        loop {
            let outcome = self.access(&write, data);
            write = match write.advance_at(outcome, stamp()) {
                WriteProgress::Next(next) => next,
                WriteProgress::Done(result) => return result,
            };
        }
    }

    fn content(&self) -> Vec<(&str, &str)> {
        self.files
            .iter()
            .map(|(n, c)| (n.as_str(), std::str::from_utf8(c).unwrap()))
            .collect()
    }

    fn etag(&self, key: &str) -> Result<String, ReadFailure> {
        match self.files.get(&etag_name(key)) {
            Some(etag) => Ok(String::from_utf8(etag.clone()).unwrap()),
            None => Err(missing()),
        }
    }
}

#[test]
fn an_object_is_written_step_by_step() {
    let mut disk = Disk::new(&[("dir/k", "old"), ("dir/k.etag", "e0"), ("dir/l", "l")], &[]);
    let mut write = ObjectWrite::begin_with("dir/k", 12, "id-1", "e1".to_string());
    assert_eq!(write.temporary, "dir/k.tmp-id-1");
    assert_eq!(write.temporary_etag(), "dir/k.tmp-id-1.etag");
    assert_eq!(write.old_name(), "dir/k.tmp-id-1.old.etag");
    let order = [
        WriteAction::MakeParent,
        WriteAction::WriteTemporary,
        WriteAction::WriteTemporaryEtag,
        WriteAction::KeepOld,
        WriteAction::Rename,
        WriteAction::RenameEtag,
    ];
    for action in order {
        assert_eq!(write.action, action);
        let data: &[u8] =
            if action == WriteAction::RenameEtag { b"twelve bytes" } else { b"old" };
        assert_eq!(disk.files["dir/k"], data);
        assert_eq!(disk.files["dir/k.etag"], b"e0");
        let outcome = disk.access(&write, "twelve bytes");
        write = match write.advance(outcome) {
            WriteProgress::Next(next) => next,
            WriteProgress::Done(_) => panic!("done too early"),
        };
    }
    assert_eq!(write.action, WriteAction::RemoveOld);
    assert_eq!(write.old, OldFile::Kept);
    let outcome = disk.access(&write, "twelve bytes");
    match write.advance_at(outcome, stamp()) {
        WriteProgress::Done(Ok(meta)) => {
            assert_eq!(meta.key, "dir/k");
            assert_eq!(meta.size, 12);
            assert_eq!(meta.etag, "e1");
            assert_eq!(meta.last_modified, stamp());
        }
        _ => panic!("not done"),
    }
    assert_eq!(
        disk.content(),
        vec![("dir/k", "twelve bytes"), ("dir/k.etag", "e1"), ("dir/l", "l")]
    );
}

#[test]
fn a_new_write_has_names_and_an_etag_of_its_own() {
    let write = ObjectWrite::begin("k", 3);
    assert!(write.temporary.starts_with("k.tmp-"));
    assert_eq!(write.temporary.len(), 42);
    assert_eq!(write.etag.len(), 36);
    assert_eq!(write.size, 3);
    assert_eq!(write.old, OldFile::Unknown);
    assert_ne!(write.etag, ObjectWrite::begin("k", 3).etag);
}

#[test]
fn a_temporary_file_has_another_extension() {
    for key in [
        "k", "k.json", "a/k.json", "a.b/k", "a.b/k.c.d", ".hidden", "a/.hidden", "a/.hidden.x",
        "k.", "a..b", "ä.ö", "a/b.c/d.e", "...", "x.tar.gz",
    ] {
        let write = ObjectWrite::begin_with(key, 0, "1", "e".to_string());
        let expected = std::path::Path::new(key).with_extension("tmp-1");
        assert_eq!(write.temporary, expected.to_str().unwrap(), "{key}");
    }
    let write = ObjectWrite::begin_with("a/b.json", 0, "1", "e".to_string());
    assert_eq!(write.temporary, "a/b.tmp-1");
}

#[test]
fn a_failed_write_leaves_the_old_object() {
    let steps = [
        WriteAction::MakeParent,
        WriteAction::WriteTemporary,
        WriteAction::WriteTemporaryEtag,
        WriteAction::Rename,
        WriteAction::RenameEtag,
    ];
    let old: [(&str, &str); 3] = [("k", "old"), ("k.etag", "e0"), ("l", "l")];
    let bare: [(&str, &str); 1] = [("l", "l")];
    for step in steps {
        for before in [&old[..], &bare[..]] {
            let mut disk = Disk::new(before, &[step]);
            match disk.write("k", "new", "e1") {
                Err(StorageError::Backend(m)) => assert_eq!(m, format!("{step:?} failed")),
                _ => panic!("not failed"),
            }
            assert_eq!(disk.content(), before.to_vec(), "{step:?}");
        }
    }
}

#[test]
fn a_write_that_cannot_be_undone_keeps_the_old_etag() {
    let old: [(&str, &str); 2] = [("k", "old"), ("k.etag", "e0")];
    for failing in [WriteAction::RestoreOld, WriteAction::KeepOld] {
        let mut disk = Disk::new(&old, &[WriteAction::RenameEtag, failing]);
        match disk.write("k", "new", "e1") {
            Err(StorageError::Backend(m)) => assert_eq!(m, "RenameEtag failed"),
            _ => panic!("not failed"),
        }
        assert_eq!(disk.content(), vec![("k", "new"), ("k.etag", "e0")]);
    }
    let mut disk = Disk::new(&[], &[WriteAction::RenameEtag, WriteAction::RemoveNew]);
    assert!(disk.write("k", "new", "e1").is_err());
    assert_eq!(disk.content(), vec![("k", "new")]);

    // Where the data was not moved, it stays, whatever else fails.
    let mut disk =
        Disk::new(&old, &[WriteAction::Rename, WriteAction::RemoveOld, WriteAction::KeepOld]);
    assert!(disk.write("k", "new", "e1").is_err());
    assert_eq!(disk.content(), old.to_vec());
}

#[test]
fn what_only_serves_undoing_does_not_fail_a_write() {
    let old: [(&str, &str); 2] = [("k", "old"), ("k.etag", "e0")];
    let mut disk = Disk::new(&old, &[WriteAction::KeepOld]);
    disk.write("k", "new", "e1").unwrap();
    assert_eq!(disk.content(), vec![("k", "new"), ("k.etag", "e1")]);
    let mut disk = Disk::new(&old, &[WriteAction::RemoveOld]);
    disk.write("k", "new", "e1").unwrap();
    assert_eq!(
        disk.content(),
        vec![("k", "new"), ("k.etag", "e1"), ("k.tmp-id-1.old.etag", "old")]
    );
}

#[test]
fn of_two_writers_with_one_etag_one_gets_through() {
    let mut disk = Disk::new(&[("l", "l"), ("l.etag", "el")], &[]);
    assert!(matches!(check_match("k", disk.etag("k"), ""), Err(StorageError::NotFound(_))));
    disk.write("k", "v1", "e1").unwrap();
    assert!(check_match("k", disk.etag("k"), "e1").is_ok());
    disk.write("k", "v2", "e2").unwrap();
    match check_match("k", disk.etag("k"), "e1") {
        Err(StorageError::EtagMismatch { got, .. }) => assert_eq!(got, "e2"),
        _ => panic!("not refused"),
    }
    assert!(check_match("k", disk.etag("k"), "e2").is_ok());
    assert_eq!(disk.content(), vec![("k", "v2"), ("k.etag", "e2"), ("l", "l"), ("l.etag", "el")]);
}

/// Lists files in memory. A directory in `gone` is found but is not there any
/// more when it is opened, and one in `closed` cannot be opened.
fn list_of(
    files: &[(&str, &str)],
    gone: &[&str],
    closed: &[&str],
    prefix: &str,
) -> (StorageResult<Vec<ObjectMeta>>, Vec<String>) {
    let files: BTreeMap<&str, &str> = files.iter().copied().collect();
    let start = |path: &str| {
        if path.is_empty() || path.ends_with('/') { path.to_string() } else { format!("{path}/") }
    };
    let named = files.keys().any(|k| k.starts_with(&start(prefix)));
    let mut dirs: Vec<String> = Vec::new();
    let mut opened = Vec::new();
    let mut entries: Vec<ListEvent> = Vec::new();
    let (mut lister, mut action) = Lister::begin(prefix, named);
    loop {
        let event = match action {
            ListAction::OpenDirectory(dir) => {
                let path = match dir {
                    Directory::Root => String::new(),
                    Directory::Named => prefix.to_string(),
                    Directory::Beside => parent_path(prefix),
                    Directory::Found(n) => dirs[n].clone(),
                };
                opened.push(path.clone());
                if gone.contains(&path.as_str()) {
                    ListEvent::OpenFailed(missing())
                } else if closed.contains(&path.as_str()) {
                    ListEvent::OpenFailed(broken())
                } else {
                    let start = start(&path);
                    let mut seen = BTreeSet::new();
                    entries.clear();
                    for name in files.keys().filter_map(|k| k.strip_prefix(start.as_str())) {
                        match name.split_once('/') {
                            None => entries.push(file(name, &format!("{start}{name}"))),
                            Some((inner, _)) => {
                                if seen.insert(inner) {
                                    let path = format!("{start}{inner}");
                                    dirs.push(path.clone());
                                    entries.push(ListEvent::Directory { dir: dirs.len() - 1, path });
                                }
                            }
                        }
                    }
                    ListEvent::Opened
                }
            }
            ListAction::NextEntry => entries.pop().unwrap_or(ListEvent::EndOfDirectory),
            ListAction::Inspect(key) => ListEvent::Inspected {
                size: files[key.as_str()].len() as u64,
                etag: files.get(etag_name(&key).as_str()).map(|e| e.to_string()),
            },
            ListAction::Done(result) => return (result, opened),
        };
        action = lister.step_at(event, stamp());
    }
}

fn list(files: &[(&str, &str)], prefix: &str) -> (StorageResult<Vec<ObjectMeta>>, Vec<String>) {
    list_of(files, &[], &[], prefix)
}

fn keys(list: StorageResult<Vec<ObjectMeta>>) -> Vec<String> {
    list.unwrap().into_iter().map(|m| m.key).collect()
}

const TREE: [(&str, &str); 9] = [
    ("bar/c", "3"),
    ("foo/a", "1"),
    ("foo/a.etag", "ea"),
    ("foo/deep/er/x", "xx"),
    ("foo.etag", "ef"),
    ("foobar", "22"),
    ("foobar.etag", "eb"),
    ("foz/y", "y"),
    ("z", ""),
];

#[test]
fn a_prefix_finds_directories_and_files_beside_them() {
    let (result, opened) = list(&TREE, "foo");
    let found = result.unwrap();
    let described: Vec<(&str, u64, &str)> =
        found.iter().map(|m| (m.key.as_str(), m.size, m.etag.as_str())).collect();
    assert_eq!(described, vec![("foo/a", 1, "ea"), ("foo/deep/er/x", 2, ""), ("foobar", 2, "eb")]);
    assert!(found.iter().all(|m| m.last_modified == stamp()));
    assert_eq!(opened, vec!["foo", "foo/deep", "foo/deep/er", ""]);

    let tree = [("a/b/1", ""), ("a/bc/2", ""), ("a/bc/d/3", ""), ("a/b4", ""), ("a/c", "")];
    let (result, opened) = list(&tree, "a/b");
    assert_eq!(keys(result), vec!["a/b/1", "a/b4", "a/bc/2", "a/bc/d/3"]);
    assert_eq!(opened, vec!["a/b", "a", "a/bc", "a/bc/d"]);
}

#[test]
fn a_listing_is_that_of_the_prefix() {
    assert_eq!(
        keys(list(&TREE, "").0),
        vec!["bar/c", "foo/a", "foo/deep/er/x", "foobar", "foz/y", "z"]
    );
    assert_eq!(keys(list(&TREE, "foo/").0), vec!["foo/a", "foo/deep/er/x"]);
    assert_eq!(keys(list(&TREE, "foo/deep/e").0), vec!["foo/deep/er/x"]);
    assert_eq!(keys(list(&TREE, "fo").0), vec!["foo/a", "foo/deep/er/x", "foobar", "foz/y"]);
    assert_eq!(keys(list(&TREE, "foobar").0), vec!["foobar"]);
    assert!(keys(list(&TREE, "foo/b").0).is_empty());
    assert!(keys(list(&TREE, "q").0).is_empty());
}

#[test]
fn a_listing_begins_with_the_directory_that_the_prefix_names() {
    assert_eq!(list(&TREE, "foo/deep/er/").1, vec!["foo/deep/er/"]);
    assert_eq!(list(&TREE, "foo/").1, vec!["foo/", "foo/deep", "foo/deep/er"]);
    // A prefix that names none has everything read.
    assert_eq!(
        list(&TREE, "foo/b").1,
        vec!["", "bar", "foo", "foo/deep", "foo/deep/er", "foz"]
    );
}

#[test]
fn a_directory_that_cannot_be_opened_fails_a_listing_that_reads_it() {
    for prefix in ["", "fo", "q", "foz/z"] {
        let (result, _) = list_of(&TREE, &[], &["bar"], prefix);
        assert!(matches!(result, Err(StorageError::Backend(m)) if m == "io"), "{prefix}");
    }
    assert_eq!(keys(list_of(&TREE, &[], &["bar"], "foz/").0), vec!["foz/y"]);
    assert_eq!(
        keys(list_of(&TREE, &[], &["bar"], "foo").0),
        vec!["foo/a", "foo/deep/er/x", "foobar"]
    );
    assert_eq!(keys(list_of(&TREE, &[], &["", "bar"], "foo/").0), vec!["foo/a", "foo/deep/er/x"]);
}

#[test]
fn a_directory_that_has_disappeared_ends_the_listing() {
    // What was found by then is returned, in the order in which it was found.
    assert_eq!(keys(list_of(&TREE, &["foo/deep"], &[], "").0), vec!["z", "foobar", "bar/c", "foo/a"]);
    assert_eq!(keys(list_of(&TREE, &["bar"], &[], "").0), vec!["z", "foobar"]);
    assert!(keys(list_of(&TREE, &["foo/"], &[], "foo/").0).is_empty());
    assert!(keys(list_of(&[], &[""], &[], "").0).is_empty());
}

#[test]
fn paths_have_parents() {
    for (path, parent) in [("a/b", "a"), ("a", ""), ("", ""), ("a/b/c", "a/b"), ("/a", "")] {
        assert_eq!(parent_path(path), parent);
    }
}

#[test]
fn a_listing_walks_directories_and_sorts_what_it_finds() {
    let dir = |dir: usize, path: &str| ListEvent::Directory { dir, path: path.to_string() };
    let next = |n: usize| move |a: ListAction| match a {
        ListAction::OpenDirectory(d) => d == Directory::Found(n),
        _ => false,
    };
    let (mut lister, action) = Lister::begin("a", false);
    assert!(matches!(action, ListAction::OpenDirectory(Directory::Root)));
    assert!(matches!(lister.step(ListEvent::Opened), ListAction::NextEntry));
    assert!(matches!(lister.step(dir(7, "a")), ListAction::NextEntry));
    assert!(matches!(lister.step(dir(8, "b")), ListAction::NextEntry));
    assert!(matches!(lister.step(file("az", "az")), ListAction::Inspect(k) if k == "az"));
    let event = ListEvent::Inspected { size: 1, etag: Some("e".to_string()) };
    assert!(matches!(lister.step_at(event, stamp()), ListAction::NextEntry));
    assert!(matches!(lister.step(file("az.etag", "az.etag")), ListAction::NextEntry));
    assert!(matches!(lister.step(file("b", "b")), ListAction::NextEntry));
    assert!(next(8)(lister.step(ListEvent::EndOfDirectory)));
    assert!(matches!(lister.step(ListEvent::Opened), ListAction::NextEntry));
    assert!(next(7)(lister.step(ListEvent::EndOfDirectory)));
    assert!(matches!(lister.step(ListEvent::Opened), ListAction::NextEntry));
    assert!(matches!(lister.step(file("x", "a\\x")), ListAction::Inspect(k) if k == "a/x"));
    let event = ListEvent::Inspected { size: 2, etag: None };
    assert!(matches!(lister.step_at(event, stamp()), ListAction::NextEntry));
    match lister.step(ListEvent::EndOfDirectory) {
        ListAction::Done(Ok(list)) => {
            assert_eq!(list.len(), 2);
            assert_eq!((list[0].key.as_str(), list[0].size, list[0].etag.as_str()), ("a/x", 2, ""));
            assert_eq!((list[1].key.as_str(), list[1].size, list[1].etag.as_str()), ("az", 1, "e"));
            assert_eq!(list[0].last_modified, stamp());
        }
        _ => panic!("not done"),
    }
}

#[test]
fn only_true_etag_extensions_are_passed_over() {
    for (name, listed) in [
        (".etag", true),
        ("a.etag", false),
        ("..etag", false),
        ("etag", true),
        ("a.etags", true),
        ("a.etag.json", true),
        ("ä.etag", false),
        ("xetag", true),
    ] {
        let (mut lister, _) = Lister::begin("", true);
        let action = lister.step(file(name, name));
        assert_eq!(matches!(action, ListAction::Inspect(_)), listed, "{name}");
    }
}

#[test]
fn other_failures_fail_the_listing() {
    let (mut lister, _) = Lister::begin("", true);
    match lister.step(ListEvent::OpenFailed(broken())) {
        ListAction::Done(Err(StorageError::Backend(m))) => assert_eq!(m, "io"),
        _ => panic!("not failed"),
    }
    let (mut lister, _) = Lister::begin("", true);
    assert!(matches!(lister.step(file("k", "k")), ListAction::Inspect(_)));
    match lister.step(ListEvent::Failed("entry".to_string())) {
        ListAction::Done(Err(StorageError::Backend(m))) => assert_eq!(m, "entry"),
        _ => panic!("not failed"),
    }
}
