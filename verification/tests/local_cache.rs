use rdedup_lib::{
    Backend, BackendThread, Batch, CombinedLocks, Error, LocalCache, LocalCacheThread, Lock,
    Metadata, Timestamp,
};
use sgdata::SGData;
use rand::Rng;
use sha2::{Digest, Sha256};
use std::cell::RefCell;
use std::io::Read;
use std::{cmp, io};
use std::collections::BTreeMap;
use std::rc::Rc;
use std::sync::mpsc::{channel, Sender};

type Log = Rc<RefCell<Vec<String>>>;

/// What one in-memory store holds, how it answers, and who holds its lock.
struct Store {
    name: &'static str,
    objects: BTreeMap<String, Vec<u8>>,
    reachable: bool,
    read_only: bool,
    exclusive: bool,
    shared: usize,
    log: Log,
}

type Shared = Rc<RefCell<Store>>;

fn store(name: &'static str, log: &Log) -> Shared {
    Rc::new(RefCell::new(Store {
        name,
        objects: BTreeMap::new(),
        reachable: true,
        read_only: false,
        exclusive: false,
        shared: 0,
        log: log.clone(),
    }))
}

fn bytes(data: &SGData) -> Vec<u8> {
    data.to_linear().to_vec()
}

struct Memory(Shared);

struct MemoryThread(Shared);

struct MemoryLock {
    store: Shared,
    exclusive: bool,
}

impl Lock for MemoryLock {}

impl Drop for MemoryLock {
    fn drop(&mut self) {
        let mut store = self.store.borrow_mut();
        if self.exclusive {
            store.exclusive = false;
        } else {
            store.shared -= 1;
        }
        let line = format!("{} unlock", store.name);
        store.log.borrow_mut().push(line);
    }
}

impl Backend for Memory {
    type Lock = MemoryLock;
    type Thread = MemoryThread;

    fn lock_exclusive(&self) -> Result<MemoryLock, Error> {
        let mut store = self.0.borrow_mut();
        let line = format!("{} lock_exclusive", store.name);
        store.log.borrow_mut().push(line);
        if store.exclusive || store.shared > 0 {
            return Err(Error::LockFailure);
        }
        store.exclusive = true;
        Ok(MemoryLock { store: self.0.clone(), exclusive: true })
    }

    fn lock_shared(&self) -> Result<MemoryLock, Error> {
        let mut store = self.0.borrow_mut();
        let line = format!("{} lock_shared", store.name);
        store.log.borrow_mut().push(line);
        if store.exclusive {
            return Err(Error::LockFailure);
        }
        store.shared += 1;
        Ok(MemoryLock { store: self.0.clone(), exclusive: false })
    }

    fn new_thread(&self) -> Result<MemoryThread, Error> {
        let store = self.0.borrow();
        store.log.borrow_mut().push(format!("{} new_thread", store.name));
        if !store.reachable {
            return Err(Error::ConnectionFailure);
        }
        Ok(MemoryThread(self.0.clone()))
    }
}

impl MemoryThread {
    fn enter(&self, call: String, mutating: bool) -> Result<(), Error> {
        let store = self.0.borrow();
        store.log.borrow_mut().push(format!("{} {}", store.name, call));
        if !store.reachable {
            return Err(Error::ConnectionFailure);
        }
        if mutating && store.read_only {
            return Err(Error::ReadOnly);
        }
        Ok(())
    }
}

impl BackendThread for MemoryThread {
    fn remove_dir_all(&mut self, path: String) -> Result<(), Error> {
        self.enter(format!("remove_dir_all {}", path), true)?;
        let prefix = format!("{}/", path);
        self.0.borrow_mut().objects.retain(|k, _| !k.starts_with(&prefix));
        Ok(())
    }

    fn rename(&mut self, src_path: String, dst_path: String) -> Result<(), Error> {
        self.enter(format!("rename {} {}", src_path, dst_path), true)?;
        let mut store = self.0.borrow_mut();
        match store.objects.remove(&src_path) {
            Some(v) => {
                store.objects.insert(dst_path, v);
                Ok(())
            }
            None => Err(Error::NotFound),
        }
    }

    fn write(&mut self, path: String, data: SGData, idempotent: bool) -> Result<(), Error> {
        self.enter(format!("write {} {}", path, idempotent), true)?;
        let mut store = self.0.borrow_mut();
        let new = bytes(&data);
        if let Some(old) = store.objects.get(&path) {
            if !idempotent && *old != new {
                return Err(Error::InvalidData);
            }
        }
        store.objects.insert(path, new);
        Ok(())
    }

    fn read(&mut self, path: String) -> Result<SGData, Error> {
        self.enter(format!("read {}", path), false)?;
        match self.0.borrow().objects.get(&path) {
            Some(v) => Ok(SGData::from_single(v.clone())),
            None => Err(Error::NotFound),
        }
    }

    fn remove(&mut self, path: String) -> Result<(), Error> {
        self.enter(format!("remove {}", path), true)?;
        match self.0.borrow_mut().objects.remove(&path) {
            Some(_) => Ok(()),
            None => Err(Error::NotFound),
        }
    }

    fn read_metadata(&mut self, path: String) -> Result<Metadata, Error> {
        self.enter(format!("read_metadata {}", path), false)?;
        match self.0.borrow().objects.get(&path) {
            Some(v) => Ok(Metadata {
                len: v.len() as u64,
                is_file: true,
                created: Timestamp { secs: 1704067200, nanos: 0 },
            }),
            None => Err(Error::NotFound),
        }
    }

    fn list(&mut self, path: String) -> Result<Vec<String>, Error> {
        self.enter(format!("list {}", path), false)?;
        let prefix = format!("{}/", path);
        Ok(self
            .0
            .borrow()
            .objects
            .keys()
            .filter(|k| k.starts_with(&prefix) && !k[prefix.len()..].contains('/'))
            .cloned()
            .collect())
    }

    fn list_recursively(&mut self, path: String, tx: Sender<Batch>) {
        if let Err(e) = self.enter(format!("list_recursively {}", path), false) {
            tx.send(Err(e)).unwrap();
            return;
        }
        let prefix = format!("{}/", path);
        let found: Vec<String> =
            self.0.borrow().objects.keys().filter(|k| k.starts_with(&prefix)).cloned().collect();
        for batch in found.chunks(2) {
            tx.send(Ok(batch.to_vec())).unwrap();
        }
    }
}

struct Fixture {
    log: Log,
    local: Shared,
    remote: Shared,
    cache: LocalCache<Memory, Memory>,
}

fn fixture() -> Fixture {
    let log: Log = Rc::new(RefCell::new(Vec::new()));
    let local = store("local", &log);
    let remote = store("remote", &log);
    let cache = LocalCache::new(Memory(local.clone()), Memory(remote.clone()));
    Fixture { log, local, remote, cache }
}

impl Fixture {
    fn thread(&self) -> LocalCacheThread<MemoryThread, MemoryThread> {
        let thread = self.cache.new_thread().unwrap();
        self.log.borrow_mut().clear();
        thread
    }

    fn log(&self) -> Vec<String> {
        self.log.borrow().clone()
    }

    fn seed(&self, store: &Shared, path: &str, content: &[u8]) {
        store.borrow_mut().objects.insert(path.to_string(), content.to_vec());
    }
}

fn sg(content: &[u8]) -> SGData {
    SGData::from_single(content.to_vec())
}

const DIGEST_SIZE: usize = 32;

fn rand_data(len: usize) -> Vec<u8> {
    rand::rng().sample_iter(&rand::distr::StandardUniform).take(len).collect::<Vec<u8>>()
}

/// Generates data that repeats some chunks, and keeps its digest.
struct ExampleDataGen {
    a: Vec<u8>,
    b: Vec<u8>,
    c: Vec<u8>,
    count: usize,
    sha: Sha256,
}

impl ExampleDataGen {
    fn new(kb: usize) -> Self {
        ExampleDataGen {
            a: rand_data(1024 * 2),
            b: rand_data(1024 * 2),
            c: rand_data(1024 * 2),
            count: kb,
            sha: Sha256::default(),
        }
    }

    fn finish(self) -> Vec<u8> {
        let mut vec_result = vec![0u8; DIGEST_SIZE];
        vec_result.copy_from_slice(&self.sha.finalize());
        vec_result
    }
}

fn copy_as_much_as_possible(dst: &mut [u8], src: &[u8]) -> usize {
    let len = cmp::min(dst.len(), src.len());
    dst[..len].clone_from_slice(&src[..len]);
    len
}

impl io::Read for ExampleDataGen {
    fn read(&mut self, buf: &mut [u8]) -> io::Result<usize> {
        if self.count == 0 {
            return Ok(0);
        }
        self.count -= 1;

        let len = match rand::rng().random_range(0..3) {
            0 => copy_as_much_as_possible(buf, &self.a),
            1 => copy_as_much_as_possible(buf, &self.b),
            2 => copy_as_much_as_possible(buf, &self.c),
            _ => panic!(),
        };

        self.sha.update(&buf[..len]);

        Ok(len)
    }
}

#[test]
fn read_after_write_needs_no_remote() {
    let f = fixture();
    let mut thread = f.thread();
    assert_eq!(thread.write("chunk/ab".to_string(), sg(&[1, 2, 3, 255]), true), Ok(()));
    f.remote.borrow_mut().reachable = false;
    f.log.borrow_mut().clear();
    let back = thread.read("chunk/ab".to_string()).unwrap();
    assert_eq!(bytes(&back), vec![1, 2, 3, 255]);
    assert_eq!(f.log(), vec!["local read chunk/ab"]);
}

#[test]
fn random_content_reads_back_with_the_same_digest() {
    let f = fixture();
    let mut thread = f.thread();
    let mut written = Vec::new();
    for len in [0usize, 1, 13, 255, 1024, 2 * 1024 + 1] {
        let data = rand_data(len);
        let name = hex::encode(Sha256::digest(&data));
        assert_eq!(thread.write(name.clone(), SGData::from_single(data.clone()), true), Ok(()));
        written.push((name, data));
    }
    f.remote.borrow_mut().reachable = false;
    for (name, data) in written {
        let back = bytes(&thread.read(name.clone()).unwrap());
        assert_eq!(back.len(), data.len());
        assert_eq!(hex::encode(Sha256::digest(&back)), name);
        assert_eq!(back, data);
    }
}

#[test]
fn zero_size() {
    let f = fixture();
    let mut thread = f.thread();
    {
        let zero = Vec::new();
        thread.write("zero".to_string(), SGData::from_single(zero), false).unwrap();
    }

    let read_zero = bytes(&thread.read("zero".to_string()).unwrap());

    assert_eq!(read_zero.len(), 0);
}

#[test]
fn byte_size() {
    let f = fixture();
    let mut thread = f.thread();

    let tests = [0u8, 1, 13, 255];
    for &b in &tests {
        let data = vec![b];
        let name = hex::encode(&data);
        thread.write(name, SGData::from_single(data), false).unwrap();
    }
    for &b in &tests {
        let name = hex::encode(vec![b]);
        let data = bytes(&thread.read(name).unwrap());
        assert_eq!(data, vec![b]);
    }
}

#[test]
fn generated_content_reads_back_with_the_same_digest() {
    let f = fixture();
    let mut thread = f.thread();
    let mut names = vec![];
    for i in 0..10 {
        let mut data = ExampleDataGen::new(rand::rng().random_range(0..64));
        let mut content = Vec::new();
        let mut buf = [0u8; 1500];
        loop {
            let len = data.read(&mut buf).unwrap();
            if len == 0 {
                break;
            }
            content.extend_from_slice(&buf[..len]);
        }
        let name = format!("{:x}", i);
        assert_eq!(thread.write(name.clone(), SGData::from_single(content), false), Ok(()));
        names.push((name, data.finish()));
    }
    f.remote.borrow_mut().reachable = false;
    for (name, digest) in names {
        let data = bytes(&thread.read(name).unwrap());
        let mut sha = Sha256::default();
        sha.update(&data);
        let mut read_digest = vec![0u8; DIGEST_SIZE];
        read_digest.copy_from_slice(&sha.finalize());
        assert_eq!(digest, read_digest);
    }
}

#[test]
fn copies_no_more_than_fits() {
    let mut dst = [0u8; 4];
    assert_eq!(copy_as_much_as_possible(&mut dst, &[1, 2]), 2);
    assert_eq!(dst, [1, 2, 0, 0]);
    assert_eq!(copy_as_much_as_possible(&mut dst, &[9, 8, 7, 6, 5]), 4);
    assert_eq!(dst, [9, 8, 7, 6]);
    assert_eq!(copy_as_much_as_possible(&mut dst, &[]), 0);
}

#[test]
fn write_goes_to_the_remote_first_then_to_the_local() {
    let f = fixture();
    let mut thread = f.thread();
    assert_eq!(thread.write("a".to_string(), sg(b"x"), false), Ok(()));
    assert_eq!(f.log(), vec!["remote write a false", "local write a false"]);
    assert_eq!(f.remote.borrow().objects.get("a"), Some(&b"x".to_vec()));
    assert_eq!(f.local.borrow().objects.get("a"), Some(&b"x".to_vec()));
    f.log.borrow_mut().clear();
    assert_eq!(thread.write("a".to_string(), sg(b"x"), true), Ok(()));
    assert_eq!(f.log(), vec!["remote write a true", "local write a true"]);
}

#[test]
fn failed_remote_write_leaves_the_local_untouched() {
    let f = fixture();
    let mut thread = f.thread();
    f.seed(&f.local, "kept", b"old");
    let before = f.local.borrow().objects.clone();
    f.remote.borrow_mut().reachable = false;
    assert_eq!(thread.write("a".to_string(), sg(b"new"), true), Err(Error::ConnectionFailure));
    assert_eq!(f.log(), vec!["remote write a true"]);
    assert_eq!(f.local.borrow().objects, before);
    f.remote.borrow_mut().reachable = true;
    f.remote.borrow_mut().read_only = true;
    f.log.borrow_mut().clear();
    assert_eq!(thread.write("kept".to_string(), sg(b"new"), false), Err(Error::ReadOnly));
    assert_eq!(f.log(), vec!["remote write kept false"]);
    assert_eq!(f.local.borrow().objects, before);
}

#[test]
fn remote_conflict_is_returned_as_it_is() {
    let f = fixture();
    let mut thread = f.thread();
    f.seed(&f.remote, "a", b"one");
    assert_eq!(thread.write("a".to_string(), sg(b"two"), false), Err(Error::InvalidData));
    assert!(f.local.borrow().objects.is_empty());
}

#[test]
fn failed_local_write_is_reported() {
    let f = fixture();
    let mut thread = f.thread();
    f.local.borrow_mut().read_only = true;
    assert_eq!(thread.write("a".to_string(), sg(b"x"), true), Err(Error::ReadOnly));
    assert_eq!(f.remote.borrow().objects.get("a"), Some(&b"x".to_vec()));
}

#[test]
fn read_miss_is_fetched_and_kept() {
    let f = fixture();
    let mut thread = f.thread();
    f.seed(&f.remote, "chunk/cd", &[9, 8, 7]);
    let got = thread.read("chunk/cd".to_string()).unwrap();
    assert_eq!(bytes(&got), vec![9, 8, 7]);
    assert_eq!(
        f.log(),
        vec!["local read chunk/cd", "remote read chunk/cd", "local write chunk/cd false"]
    );
    assert_eq!(f.local.borrow().objects.get("chunk/cd"), Some(&vec![9, 8, 7]));
    // The next read is served locally.
    f.remote.borrow_mut().reachable = false;
    f.log.borrow_mut().clear();
    assert_eq!(bytes(&thread.read("chunk/cd".to_string()).unwrap()), vec![9, 8, 7]);
    assert_eq!(f.log(), vec!["local read chunk/cd"]);
}

#[test]
fn read_miss_succeeds_though_the_copy_cannot_be_kept() {
    let f = fixture();
    let mut thread = f.thread();
    f.seed(&f.remote, "chunk/cd", &[9, 8, 7]);
    f.local.borrow_mut().read_only = true;
    let got = thread.read("chunk/cd".to_string()).unwrap();
    assert_eq!(bytes(&got), vec![9, 8, 7]);
    assert!(f.local.borrow().objects.is_empty());
}

#[test]
fn read_treats_any_local_failure_as_a_miss() {
    let f = fixture();
    let mut thread = f.thread();
    f.seed(&f.remote, "a", b"remote");
    f.seed(&f.local, "a", b"local");
    f.local.borrow_mut().reachable = false;
    assert_eq!(bytes(&thread.read("a".to_string()).unwrap()), b"remote".to_vec());
}

#[test]
fn read_prefers_the_local_copy() {
    let f = fixture();
    let mut thread = f.thread();
    f.seed(&f.remote, "a", b"remote");
    f.seed(&f.local, "a", b"local");
    assert_eq!(bytes(&thread.read("a".to_string()).unwrap()), b"local".to_vec());
    assert_eq!(f.log(), vec!["local read a"]);
}

#[test]
fn read_surfaces_the_remote_failure() {
    let f = fixture();
    let mut thread = f.thread();
    assert_eq!(thread.read("nowhere".to_string()), Err(Error::NotFound));
    assert_eq!(f.log(), vec!["local read nowhere", "remote read nowhere"]);
    f.remote.borrow_mut().reachable = false;
    assert_eq!(thread.read("nowhere".to_string()), Err(Error::ConnectionFailure));
    assert!(f.local.borrow().objects.is_empty());
}

#[test]
fn list_reflects_the_remote_only() {
    let f = fixture();
    let mut thread = f.thread();
    f.seed(&f.remote, "d/a", b"1");
    f.seed(&f.remote, "d/b", b"2");
    f.seed(&f.local, "d/a", b"1");
    f.seed(&f.local, "d/extra", b"3");
    assert_eq!(thread.list("d".to_string()), Ok(vec!["d/a".to_string(), "d/b".to_string()]));
    assert_eq!(f.log(), vec!["remote list d"]);
    f.remote.borrow_mut().reachable = false;
    assert_eq!(thread.list("d".to_string()), Err(Error::ConnectionFailure));
}

#[test]
fn list_recursively_reflects_the_remote_only() {
    let f = fixture();
    let mut thread = f.thread();
    for name in ["d/a", "d/s/b", "d/s/t/c"] {
        f.seed(&f.remote, name, b"1");
    }
    f.seed(&f.local, "d/extra", b"3");
    f.seed(&f.local, "d/s/extra", b"3");
    let (tx, rx) = channel();
    thread.list_recursively("d".to_string(), tx);
    let got: Vec<Batch> = rx.iter().collect();
    assert_eq!(
        got,
        vec![Ok(vec!["d/a".to_string(), "d/s/b".to_string()]), Ok(vec!["d/s/t/c".to_string()])]
    );
    assert_eq!(f.log(), vec!["remote list_recursively d"]);
}

#[test]
fn metadata_comes_from_the_remote() {
    let f = fixture();
    let mut thread = f.thread();
    f.seed(&f.remote, "a", b"12345");
    f.seed(&f.local, "a", b"1");
    f.seed(&f.local, "only-local", b"1");
    assert_eq!(
        thread.read_metadata("a".to_string()),
        Ok(Metadata { len: 5, is_file: true, created: Timestamp { secs: 1704067200, nanos: 0 } })
    );
    assert_eq!(thread.read_metadata("only-local".to_string()), Err(Error::NotFound));
    assert_eq!(f.log(), vec!["remote read_metadata a", "remote read_metadata only-local"]);
}

#[test]
fn remove_is_mirrored_after_the_remote() {
    let f = fixture();
    let mut thread = f.thread();
    f.seed(&f.remote, "a", b"1");
    f.seed(&f.local, "a", b"1");
    assert_eq!(thread.remove("a".to_string()), Ok(()));
    assert_eq!(f.log(), vec!["remote remove a", "local remove a"]);
    assert!(f.remote.borrow().objects.is_empty());
    assert!(f.local.borrow().objects.is_empty());
}

#[test]
fn failed_remote_remove_leaves_the_local_untouched() {
    let f = fixture();
    let mut thread = f.thread();
    f.seed(&f.local, "a", b"1");
    assert_eq!(thread.remove("a".to_string()), Err(Error::NotFound));
    assert_eq!(f.log(), vec!["remote remove a"]);
    assert_eq!(f.local.borrow().objects.get("a"), Some(&b"1".to_vec()));
}

#[test]
fn remove_reports_what_the_local_says() {
    let f = fixture();
    let mut thread = f.thread();
    f.seed(&f.remote, "a", b"1");
    assert_eq!(thread.remove("a".to_string()), Err(Error::NotFound));
    assert_eq!(f.log(), vec!["remote remove a", "local remove a"]);
}

#[test]
fn rename_is_mirrored_after_the_remote() {
    let f = fixture();
    let mut thread = f.thread();
    f.seed(&f.remote, "a", b"1");
    f.seed(&f.local, "a", b"1");
    assert_eq!(thread.rename("a".to_string(), "b".to_string()), Ok(()));
    assert_eq!(f.log(), vec!["remote rename a b", "local rename a b"]);
    assert_eq!(f.remote.borrow().objects.get("b"), Some(&b"1".to_vec()));
    assert_eq!(f.local.borrow().objects.get("b"), Some(&b"1".to_vec()));
    assert_eq!(f.local.borrow().objects.get("a"), None);
}

#[test]
fn failed_remote_rename_leaves_the_local_untouched() {
    let f = fixture();
    let mut thread = f.thread();
    f.seed(&f.local, "a", b"1");
    f.remote.borrow_mut().read_only = true;
    assert_eq!(thread.rename("a".to_string(), "b".to_string()), Err(Error::ReadOnly));
    assert_eq!(f.log(), vec!["remote rename a b"]);
    assert_eq!(f.local.borrow().objects.get("a"), Some(&b"1".to_vec()));
}

#[test]
fn remove_dir_all_is_mirrored_after_the_remote() {
    let f = fixture();
    let mut thread = f.thread();
    for s in [&f.remote, &f.local] {
        f.seed(s, "d/a", b"1");
        f.seed(s, "d/s/b", b"1");
        f.seed(s, "e/c", b"1");
    }
    assert_eq!(thread.remove_dir_all("d".to_string()), Ok(()));
    assert_eq!(f.log(), vec!["remote remove_dir_all d", "local remove_dir_all d"]);
    assert_eq!(f.remote.borrow().objects.keys().collect::<Vec<_>>(), vec!["e/c"]);
    assert_eq!(f.local.borrow().objects.keys().collect::<Vec<_>>(), vec!["e/c"]);
}

#[test]
fn failed_remote_remove_dir_all_leaves_the_local_untouched() {
    let f = fixture();
    let mut thread = f.thread();
    f.seed(&f.local, "d/a", b"1");
    f.remote.borrow_mut().reachable = false;
    assert_eq!(thread.remove_dir_all("d".to_string()), Err(Error::ConnectionFailure));
    assert_eq!(f.log(), vec!["remote remove_dir_all d"]);
    assert_eq!(f.local.borrow().objects.len(), 1);
}

#[test]
fn exclusive_lock_takes_the_remote_first() {
    let f = fixture();
    let lock = f.cache.lock_exclusive();
    assert!(lock.is_ok());
    assert_eq!(f.log(), vec!["remote lock_exclusive", "local lock_exclusive"]);
    assert!(f.remote.borrow().exclusive);
    assert!(f.local.borrow().exclusive);
    drop(lock);
    assert!(!f.remote.borrow().exclusive);
    assert!(!f.local.borrow().exclusive);
}

#[test]
fn shared_lock_takes_the_local_exclusively() {
    let f = fixture();
    let lock = f.cache.lock_shared();
    assert!(lock.is_ok());
    assert_eq!(f.log(), vec!["remote lock_shared", "local lock_exclusive"]);
    assert_eq!(f.remote.borrow().shared, 1);
    assert!(f.local.borrow().exclusive);
    // A second session on the same local cache is kept out, shared though it is.
    assert!(matches!(f.cache.lock_shared(), Err(Error::LockFailure)));
    assert_eq!(f.remote.borrow().shared, 1);
    drop(lock);
    assert_eq!(f.remote.borrow().shared, 0);
    assert!(f.cache.lock_shared().is_ok());
}

#[test]
fn exclusive_and_shared_locks_exclude_each_other() {
    let f = fixture();
    let shared = f.cache.lock_shared().ok().unwrap();
    assert!(matches!(f.cache.lock_exclusive(), Err(Error::LockFailure)));
    drop(shared);
    let exclusive = f.cache.lock_exclusive().ok().unwrap();
    assert!(matches!(f.cache.lock_shared(), Err(Error::LockFailure)));
    assert!(matches!(f.cache.lock_exclusive(), Err(Error::LockFailure)));
    drop(exclusive);
    assert!(f.cache.lock_exclusive().is_ok());
}

#[test]
fn refused_remote_lock_leaves_the_local_unlocked() {
    let f = fixture();
    f.remote.borrow_mut().exclusive = true;
    assert!(matches!(f.cache.lock_exclusive(), Err(Error::LockFailure)));
    assert!(matches!(f.cache.lock_shared(), Err(Error::LockFailure)));
    assert_eq!(f.log(), vec!["remote lock_exclusive", "remote lock_shared"]);
    assert!(!f.local.borrow().exclusive);
}

#[test]
fn refused_local_lock_gives_the_remote_lock_up() {
    let f = fixture();
    f.local.borrow_mut().exclusive = true;
    assert!(matches!(f.cache.lock_exclusive(), Err(Error::LockFailure)));
    assert_eq!(f.log(), vec!["remote lock_exclusive", "local lock_exclusive", "remote unlock"]);
    assert!(!f.remote.borrow().exclusive);
}

#[test]
fn combined_locks_are_released_in_reverse() {
    let f = fixture();
    let lock = f.cache.lock_shared().ok().unwrap();
    f.log.borrow_mut().clear();
    drop(lock);
    assert_eq!(f.log(), vec!["local unlock", "remote unlock"]);
    let lock = f.cache.lock_exclusive().ok().unwrap();
    f.log.borrow_mut().clear();
    drop(lock);
    assert_eq!(f.log(), vec!["local unlock", "remote unlock"]);
}

#[test]
fn combined_locks_hold_both() {
    let f = fixture();
    let remote = Memory(f.remote.clone()).lock_shared().ok().unwrap();
    let local = Memory(f.local.clone()).lock_exclusive().ok().unwrap();
    let both = CombinedLocks::new(remote, local);
    assert_eq!(f.remote.borrow().shared, 1);
    assert!(f.local.borrow().exclusive);
    drop(both);
    assert_eq!(f.remote.borrow().shared, 0);
    assert!(!f.local.borrow().exclusive);
}

#[test]
fn new_thread_makes_a_handle_on_each_side() {
    let f = fixture();
    let thread = f.cache.new_thread().unwrap();
    assert_eq!(f.log(), vec!["local new_thread", "remote new_thread"]);
    f.seed(&f.local, "l", b"1");
    f.seed(&f.remote, "r", b"2");
    f.log.borrow_mut().clear();
    let mut thread = thread;
    assert_eq!(bytes(&thread.read("l".to_string()).unwrap()), b"1".to_vec());
    assert_eq!(bytes(&thread.read("r".to_string()).unwrap()), b"2".to_vec());
}

#[test]
fn new_thread_fails_as_either_side_fails() {
    let f = fixture();
    f.remote.borrow_mut().reachable = false;
    assert!(matches!(f.cache.new_thread(), Err(Error::ConnectionFailure)));
    f.remote.borrow_mut().reachable = true;
    f.local.borrow_mut().reachable = false;
    f.log.borrow_mut().clear();
    assert!(matches!(f.cache.new_thread(), Err(Error::ConnectionFailure)));
    assert_eq!(f.log(), vec!["local new_thread"]);
}

#[test]
fn handles_are_independent() {
    let f = fixture();
    let mut one = f.cache.new_thread().unwrap();
    let mut two = f.cache.new_thread().unwrap();
    assert_eq!(one.write("a".to_string(), sg(b"x"), true), Ok(()));
    assert_eq!(bytes(&two.read("a".to_string()).unwrap()), b"x".to_vec());
    assert_eq!(one.local().0.borrow().objects["a"], b"x".to_vec());
    assert_eq!(two.remote().0.borrow().objects.len(), 1);
}
