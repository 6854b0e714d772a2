use std::collections::BTreeMap;

use prune_empty::entry::{Entry, EntryKind};
use prune_empty::mode::PruneMode;
use prune_empty::pruner::{Action, Event, Pruner};

/// What an in-memory filesystem holds at one path.
#[derive(Clone, Debug, PartialEq)]
enum Item {
    Dir,
    LockedDir,
    File(u64),
    Link,
}

/// An in-memory filesystem: paths with `/` between names.
struct Fs {
    items: BTreeMap<String, Item>,
}

impl Fs {
    fn new() -> Fs {
        Fs { items: BTreeMap::new() }
    }

    fn dir(&mut self, path: &str) {
        let mut at = String::new();
        for part in path.split('/') {
            if !at.is_empty() {
                at.push('/');
            }
            at.push_str(part);
            self.items.entry(at.clone()).or_insert(Item::Dir);
        }
    }

    fn locked_dir(&mut self, path: &str) {
        self.dir(path);
        self.items.insert(path.to_string(), Item::LockedDir);
    }

    fn file(&mut self, path: &str, len: u64) {
        let parent = &path[..path.rfind('/').unwrap()];
        self.dir(parent);
        self.items.insert(path.to_string(), Item::File(len));
    }

    fn link(&mut self, path: &str) {
        let parent = &path[..path.rfind('/').unwrap()];
        self.dir(parent);
        self.items.insert(path.to_string(), Item::Link);
    }

    fn has(&self, path: &str) -> bool {
        self.items.contains_key(path)
    }

    fn children(&self, path: &str) -> Vec<String> {
        let prefix = format!("{}/", path);
        self.items
            .keys()
            .filter(|k| k.starts_with(&prefix) && !k[prefix.len()..].contains('/'))
            .cloned()
            .collect()
    }

    fn list(&self, path: &str) -> Option<Vec<Entry>> {
        match self.items.get(path) {
            Some(Item::Dir) => Some(
                self.children(path)
                    .into_iter()
                    .map(|c| {
                        let kind = match self.items[&c] {
                            Item::Dir | Item::LockedDir => EntryKind::Dir,
                            Item::File(len) => EntryKind::File { len },
                            Item::Link => EntryKind::Other,
                        };
                        Entry::new(c, kind)
                    })
                    .collect(),
            ),
            _ => None,
        }
    }

    fn remove_dir(&mut self, path: &str) -> bool {
        let is_dir = matches!(self.items.get(path), Some(Item::Dir) | Some(Item::LockedDir));
        if is_dir && self.children(path).is_empty() {
            self.items.remove(path);
            true
        } else {
            false
        }
    }

    fn remove_file(&mut self, path: &str) -> bool {
        if let Some(Item::File(_)) = self.items.get(path) {
            self.items.remove(path);
            true
        } else {
            false
        }
    }
}

/// The outcome of one run: what was removed, and what failed, in order.
#[derive(Debug, Default)]
struct Log {
    removed: Vec<String>,
    failed: Vec<String>,
    unreadable: Vec<String>,
    actions: Vec<Action>,
}

fn prune(fs: &mut Fs, root: &str, mode: PruneMode) -> Log {
    let mut log = Log::default();
    let mut walk = Pruner::new(root.to_string(), mode);
    let mut action = walk.action();
    loop {
        log.actions.push(walk.action());
        let event = match &action {
            Action::List(p) => match fs.list(p) {
                Some(entries) => Event::Listed(entries),
                None => {
                    log.unreadable.push(p.clone());
                    Event::ListFailed
                }
            },
            Action::RemoveFile(p) | Action::RemoveDir(p) => {
                let ok = if matches!(action, Action::RemoveFile(_)) {
                    fs.remove_file(p)
                } else {
                    fs.remove_dir(p)
                };
                if ok {
                    log.removed.push(p.clone());
                    Event::Removed
                } else {
                    log.failed.push(p.clone());
                    Event::RemoveFailed
                }
            }
            Action::Finished => break,
        };
        action = walk.step(event);
    }
    log
}

#[test]
fn rmdirs() {
    let mut fs = Fs::new();
    fs.dir("test/contains_dirs/hello");
    fs.dir("test/contains_dirs/world/inside");

    prune(&mut fs, "test", PruneMode::Dirs);

    assert!(!fs.has("test"), "Directories were not properly deleted.");
}

#[test]
fn rmfiles() {
    let mut fs = Fs::new();
    fs.dir("test/contains_files_and_dirs/hello");
    fs.dir("test/contains_files_and_dirs/world");
    fs.file("test/contains_files_and_dirs/hello/hello.txt", "hello".len() as u64);

    prune(&mut fs, "test", PruneMode::Dirs);

    assert!(fs.has("test"), "Deleted even though files remained");
}

#[test]
fn flags_select_mode() {
    assert_eq!(PruneMode::from_flags(false, false), PruneMode::Both);
    assert_eq!(PruneMode::from_flags(true, true), PruneMode::Both);
    assert_eq!(PruneMode::from_flags(true, false), PruneMode::Dirs);
    assert_eq!(PruneMode::from_flags(false, true), PruneMode::Files);
}

#[test]
fn modes_name_their_kinds() {
    assert!(PruneMode::Dirs.removes_dirs() && !PruneMode::Dirs.removes_files());
    assert!(!PruneMode::Files.removes_dirs() && PruneMode::Files.removes_files());
    assert!(PruneMode::Both.removes_dirs() && PruneMode::Both.removes_files());
}

#[test]
fn first_action_lists_root() {
    let walk = Pruner::new("r".to_string(), PruneMode::Both);
    assert_eq!(walk.action(), Action::List("r".to_string()));
    assert!(!walk.is_finished());
    assert_eq!(walk.mode(), PruneMode::Both);
}

#[test]
fn empty_root_is_removed_then_finished() {
    let mut walk = Pruner::new("r".to_string(), PruneMode::Dirs);
    assert_eq!(walk.step(Event::Listed(vec![])), Action::RemoveDir("r".to_string()));
    assert_eq!(walk.step(Event::Removed), Action::Finished);
    assert!(walk.is_finished());
}

#[test]
fn unlistable_root_is_left_alone() {
    let mut walk = Pruner::new("r".to_string(), PruneMode::Both);
    assert_eq!(walk.step(Event::ListFailed), Action::Finished);
}

#[test]
fn entries_are_taken_in_listing_order() {
    let mut walk = Pruner::new("r".to_string(), PruneMode::Both);
    let entries = vec![
        Entry::new("r/big".to_string(), EntryKind::File { len: 3 }),
        Entry::new("r/zero".to_string(), EntryKind::File { len: 0 }),
        Entry::new("r/link".to_string(), EntryKind::Other),
        Entry::new("r/odd".to_string(), EntryKind::Unknown),
        Entry::new("r/sub".to_string(), EntryKind::Dir),
    ];
    assert_eq!(walk.step(Event::Listed(entries)), Action::RemoveFile("r/zero".to_string()));
    assert_eq!(walk.step(Event::RemoveFailed), Action::List("r/sub".to_string()));
    assert_eq!(walk.step(Event::Listed(vec![])), Action::RemoveDir("r/sub".to_string()));
    assert_eq!(walk.step(Event::Removed), Action::RemoveDir("r".to_string()));
    assert_eq!(walk.step(Event::RemoveFailed), Action::Finished);
}

#[test]
fn files_mode_never_asks_to_remove_a_directory() {
    let mut walk = Pruner::new("r".to_string(), PruneMode::Files);
    let entries = vec![
        Entry::new("r/sub".to_string(), EntryKind::Dir),
        Entry::new("r/zero".to_string(), EntryKind::File { len: 0 }),
    ];
    assert_eq!(walk.step(Event::Listed(entries)), Action::List("r/sub".to_string()));
    assert_eq!(walk.step(Event::Listed(vec![])), Action::RemoveFile("r/zero".to_string()));
    assert_eq!(walk.step(Event::Removed), Action::Finished);
}

#[test]
fn dirs_mode_never_asks_to_remove_a_file() {
    let mut walk = Pruner::new("r".to_string(), PruneMode::Dirs);
    let entries = vec![Entry::new("r/zero".to_string(), EntryKind::File { len: 0 })];
    assert_eq!(walk.step(Event::Listed(entries)), Action::RemoveDir("r".to_string()));
}

#[test]
fn nested_empty_dirs_all_go() {
    for mode in [PruneMode::Dirs, PruneMode::Both] {
        let mut fs = Fs::new();
        fs.dir("root/a/b/c/d/e");
        fs.dir("root/f");
        let log = prune(&mut fs, "root", mode);
        assert!(!fs.has("root"));
        assert_eq!(
            log.removed,
            vec!["root/a/b/c/d/e", "root/a/b/c/d", "root/a/b/c", "root/a/b", "root/a", "root/f", "root"]
        );
        assert!(log.failed.is_empty());
    }
}

#[test]
fn file_keeps_its_ancestors() {
    let mut fs = Fs::new();
    fs.file("root/a/b/keep.txt", 4);
    fs.file("root/a/c/zero.txt", 0);
    fs.dir("root/d");
    let log = prune(&mut fs, "root", PruneMode::Dirs);
    assert!(fs.has("root/a/b/keep.txt"));
    assert!(fs.has("root/a/c/zero.txt"));
    assert!(fs.has("root/a/b") && fs.has("root/a") && fs.has("root"));
    assert!(!fs.has("root/d"));
    assert_eq!(log.removed, vec!["root/d"]);
    assert_eq!(log.failed, vec!["root/a/b", "root/a/c", "root/a", "root"]);
}

#[test]
fn files_mode_keeps_every_directory() {
    let mut fs = Fs::new();
    fs.file("root/a/zero.txt", 0);
    fs.file("root/b/other.txt", 0);
    fs.file("root/b/full.txt", 9);
    let log = prune(&mut fs, "root", PruneMode::Files);
    assert!(!fs.has("root/a/zero.txt") && !fs.has("root/b/other.txt"));
    assert!(fs.has("root/a") && fs.has("root/b") && fs.has("root"));
    assert!(fs.has("root/b/full.txt"));
    assert_eq!(log.removed, vec!["root/a/zero.txt", "root/b/other.txt"]);
    assert!(!log.actions.iter().any(|a| matches!(a, Action::RemoveDir(_))));
}

#[test]
fn second_run_removes_nothing() {
    for mode in [PruneMode::Dirs, PruneMode::Files, PruneMode::Both] {
        let mut fs = Fs::new();
        fs.file("root/a/full.txt", 2);
        fs.file("root/a/zero.txt", 0);
        fs.dir("root/b/c");
        fs.locked_dir("root/d");
        let first = prune(&mut fs, "root", mode);
        assert!(fs.has("root"));
        let second = prune(&mut fs, "root", mode);
        assert!(second.removed.is_empty(), "{:?} removed {:?} after {:?}", mode, second.removed, first.removed);
        assert_eq!(second.unreadable, first.unreadable);
    }
}

#[test]
fn unreadable_dir_does_not_stop_siblings() {
    let mut fs = Fs::new();
    fs.locked_dir("root/locked");
    fs.file("root/locked/inside.txt", 0);
    fs.dir("root/free/deep");
    let log = prune(&mut fs, "root", PruneMode::Both);
    assert_eq!(log.unreadable, vec!["root/locked"]);
    assert!(fs.has("root/locked/inside.txt"));
    assert!(!fs.has("root/free"));
    assert!(fs.has("root"));
    assert_eq!(log.removed, vec!["root/free/deep", "root/free"]);
    assert_eq!(log.failed, vec!["root"]);
}

#[test]
fn links_are_neither_entered_nor_removed() {
    let mut fs = Fs::new();
    fs.link("root/link");
    let log = prune(&mut fs, "root", PruneMode::Both);
    assert!(fs.has("root/link"));
    assert_eq!(log.failed, vec!["root"]);
}

#[test]
fn both_mode_scenario() {
    let mut fs = Fs::new();
    fs.dir("root/a/b");
    fs.dir("root/c/d");
    fs.file("root/e/file.txt", 1);
    let log = prune(&mut fs, "root", PruneMode::Both);
    for gone in ["root/a/b", "root/a", "root/c/d", "root/c"] {
        assert!(!fs.has(gone), "{} should be gone", gone);
        assert!(log.removed.iter().any(|p| p == gone));
    }
    assert!(fs.has("root/e") && fs.has("root/e/file.txt") && fs.has("root"));
    assert_eq!(log.removed.len(), 4);
}

#[test]
fn zero_length_file_empties_its_directory() {
    let mut fs = Fs::new();
    fs.file("root/a/zero.txt", 0);
    let log = prune(&mut fs, "root", PruneMode::Both);
    assert!(!fs.has("root"));
    assert_eq!(log.removed, vec!["root/a/zero.txt", "root/a", "root"]);
}
