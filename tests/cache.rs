use std::collections::HashMap;

use git_index_write::cache::{Action, Cache, Options, Outcome};
use git_index_write::entry::Mode;

#[derive(Clone, Copy, PartialEq, Debug)]
enum Node {
    Dir,
    File,
    Symlink,
}

/// A filesystem in memory: each path maps to what stands there.
struct Fs {
    nodes: HashMap<Vec<u8>, Node>,
}

fn parent(p: &[u8]) -> Vec<u8> {
    match p.iter().rposition(|b| *b == b'/') {
        Some(i) => p[..i].to_vec(),
        None => Vec::new(),
    }
}

impl Fs {
    fn with_root(root: &str) -> Fs {
        let mut nodes = HashMap::new();
        nodes.insert(root.as_bytes().to_vec(), Node::Dir);
        Fs { nodes }
    }

    fn mkdir(&mut self, p: &[u8]) -> Outcome {
        match self.nodes.get(p) {
            Some(Node::Dir) => Outcome::ExistsAsDirectory,
            Some(_) => Outcome::ExistsAsOther,
            None => {
                if self.nodes.get(&parent(p)) != Some(&Node::Dir) {
                    return Outcome::Failed;
                }
                self.nodes.insert(p.to_vec(), Node::Dir);
                Outcome::Created
            }
        }
    }

    fn is_dir(&self, p: &[u8]) -> bool {
        self.nodes.get(p) == Some(&Node::Dir)
    }

    fn is_present(&self, p: &[u8]) -> bool {
        self.nodes.contains_key(p)
    }
}

/// Carries out the cache's actions on `fs`, as a checkout would on disk.
fn materialize(cache: &mut Cache, fs: &mut Fs, relative: &str, mode: Mode) -> Result<Vec<u8>, Outcome> {
    let mut walk = cache.start_walk(relative.as_bytes(), mode);
    let mut last = Outcome::Failed;
    loop {
        match cache.next_action(&walk) {
            Action::Done(p) => return Ok(p),
            Action::Fail => return Err(last),
            Action::CreateDir(p) => {
                last = fs.mkdir(&p);
                cache.record(&mut walk, last);
            }
            Action::Remove(p) => {
                fs.nodes.remove(&p);
                cache.record(&mut walk, Outcome::Removed);
            }
        }
    }
}

fn new_cache() -> (Cache, Fs) {
    let cache = Cache::new(
        b"tmp".to_vec(),
        Options {
            create_directories: true,
            ..Default::default()
        },
    );
    (cache, Fs::with_root("tmp"))
}

#[test]
fn root_is_assumed_to_exist_and_files_in_root_do_not_create_directory() {
    let mut fs = Fs::with_root("tmp");
    let mut cache = Cache::new(
        b"tmp/non-existing-root".to_vec(),
        Options {
            create_directories: true,
            ..Default::default()
        },
    );
    assert_eq!(cache.test_mkdir_calls, 0);

    let path = materialize(&mut cache, &mut fs, "hello", Mode::File).unwrap();
    assert_eq!(path, b"tmp/non-existing-root/hello".to_vec());
    assert!(!fs.is_present(&parent(&path)), "prefix itself is never created");
    assert_eq!(cache.test_mkdir_calls, 0);
}

#[test]
fn directory_paths_are_created_in_full() {
    let (mut cache, mut fs) = new_cache();

    for (name, mode) in &[
        ("dir", Mode::Dir),
        ("submodule", Mode::Commit),
        ("file", Mode::File),
        ("exe", Mode::FileExecutable),
        ("link", Mode::Symlink),
    ] {
        let relative = format!("dir/{}", name);
        let path = materialize(&mut cache, &mut fs, &relative, *mode).unwrap();
        assert!(fs.is_dir(&parent(&path)), "dir exists");
    }

    assert_eq!(cache.test_mkdir_calls, 3);
}

#[test]
fn existing_directories_are_fine() {
    let (mut cache, mut fs) = new_cache();
    fs.nodes.insert(b"tmp/dir".to_vec(), Node::Dir);

    let path = materialize(&mut cache, &mut fs, "dir/file", Mode::File).unwrap();
    assert!(fs.is_dir(&parent(&path)), "directory is still present");
    assert!(!fs.is_present(&path), "it won't create the file");
    assert_eq!(cache.test_mkdir_calls, 1);
}

#[test]
fn symlinks_or_files_in_path_are_forbidden_or_unlinked_when_forced() {
    let (mut cache, mut fs) = new_cache();
    fs.nodes.insert(b"tmp/forbidden".to_vec(), Node::Dir);
    fs.nodes.insert(b"tmp/link-to-dir".to_vec(), Node::Symlink);
    fs.nodes.insert(b"tmp/file-in-dir".to_vec(), Node::File);

    for dirname in &["file-in-dir", "link-to-dir"] {
        cache.unlink_on_collision = false;
        let relative_path = format!("{}/file", dirname);
        assert_eq!(
            materialize(&mut cache, &mut fs, &relative_path, Mode::File).unwrap_err(),
            Outcome::ExistsAsOther
        );
    }
    assert_eq!(
        cache.test_mkdir_calls, 2,
        "it tries to create each directory once, but it's a file"
    );
    cache.test_mkdir_calls = 0;
    for dirname in &["link-to-dir", "file-in-dir"] {
        cache.unlink_on_collision = true;
        let relative_path = format!("{}/file", dirname);
        let path = materialize(&mut cache, &mut fs, &relative_path, Mode::File).unwrap();
        assert!(fs.is_dir(&parent(&path)), "directory was forcefully created");
        assert!(!fs.is_present(&path));
    }
    assert_eq!(
        cache.test_mkdir_calls, 4,
        "like before, but it unlinks what's there and tries again"
    );
}

#[test]
fn disabled_creation_returns_the_joined_path_without_any_call() {
    let mut fs = Fs::with_root("tmp");
    let mut cache = Cache::new(b"tmp".to_vec(), Options::default());
    let path = materialize(&mut cache, &mut fs, "a/b/c", Mode::File).unwrap();
    assert_eq!(path, b"tmp/a/b/c".to_vec());
    assert_eq!(cache.test_mkdir_calls, 0);
    assert!(!fs.is_present(b"tmp/a"));
}

#[test]
fn nested_ancestors_are_created_root_outward_once() {
    let (mut cache, mut fs) = new_cache();
    materialize(&mut cache, &mut fs, "a/b/c/file", Mode::File).unwrap();
    assert!(fs.is_dir(b"tmp/a") && fs.is_dir(b"tmp/a/b") && fs.is_dir(b"tmp/a/b/c"));
    assert_eq!(cache.test_mkdir_calls, 3);
    materialize(&mut cache, &mut fs, "a/b/other", Mode::File).unwrap();
    assert_eq!(cache.test_mkdir_calls, 3);
    assert_eq!(cache.known.len(), 3);
}

#[test]
fn a_failed_retry_surfaces_the_second_failure() {
    let (mut cache, _fs) = new_cache();
    cache.unlink_on_collision = true;
    let mut walk = cache.start_walk(b"x/file", Mode::File);
    assert!(matches!(cache.next_action(&walk), Action::CreateDir(ref p) if p == b"tmp/x"));
    cache.record(&mut walk, Outcome::ExistsAsOther);
    assert!(matches!(cache.next_action(&walk), Action::Remove(ref p) if p == b"tmp/x"));
    cache.record(&mut walk, Outcome::Removed);
    assert!(matches!(cache.next_action(&walk), Action::CreateDir(_)));
    cache.record(&mut walk, Outcome::ExistsAsOther);
    assert!(matches!(cache.next_action(&walk), Action::Fail));
    assert_eq!(cache.test_mkdir_calls, 2);
    assert_eq!(cache.known.len(), 0);
}

#[test]
fn other_creation_failures_end_the_walk() {
    let (mut cache, mut fs) = new_cache();
    let mut other = Cache::new(b"missing".to_vec(), Options { create_directories: true, unlink_on_collision: true });
    assert_eq!(materialize(&mut other, &mut fs, "d/f", Mode::File).unwrap_err(), Outcome::Failed);
    assert_eq!(other.test_mkdir_calls, 1);
    assert!(materialize(&mut cache, &mut fs, "d/f", Mode::File).is_ok());
}
