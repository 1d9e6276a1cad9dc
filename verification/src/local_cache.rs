//! A local cache layered over a remote backend.
//!
//! The remote is the source of truth. A change goes to the remote first and
//! is mirrored locally only once the remote has accepted it, so that the
//! local backend never runs ahead of the remote. A read is served from the
//! local copy where there is one and otherwise fetched from the remote and
//! kept; keeping it is best effort and never fails a read. Listings and
//! metadata always come from the remote.
//!
//! Two things are as they are for want of finer means. Any failure of a
//! local read counts as a miss, so a damaged local copy is fetched anew and
//! never reported. And a shared lock on the cache takes the local backend's
//! exclusive lock, because a miss writes to the local backend: two sessions
//! cannot share one local cache, even to read.

use vstd::prelude::*;
use sgdata::SGData;
use std::sync::mpsc::Sender;
use crate::backend::{Backend, BackendThread, Batch, Lock, Metadata};
use crate::data::sg_parts;
use crate::error::Error;

verus! {

/// A backend that keeps local copies of what it reads from and writes to
/// `remote`.
pub struct LocalCache<L: Backend, R: Backend> {
    local: L,
    remote: R,
}

/// The remote's lock and the local lock, held together. The remote's lock
/// is always taken first. Both are released when the value is dropped, in
/// the reverse of the order they were taken in: the local lock, then the
/// remote's.
pub struct CombinedLocks<R: Lock, L: Lock> {
    local: L,
    remote: R,
}

impl<R: Lock, L: Lock> CombinedLocks<R, L> {
    /// The lock held on the remote.
    pub closed spec fn remote_lock(self) -> R {
        self.remote
    }

    /// The lock held on the local backend.
    pub closed spec fn local_lock(self) -> L {
        self.local
    }

    /// Puts two locks that are held together: the remote's, taken first,
    /// and the local one.
    pub fn new(remote: R, local: L) -> (locks: Self)
        ensures
            locks.remote_lock() == remote,
            locks.local_lock() == local,
    {
        CombinedLocks { remote, local }
    }
}

impl<R: Lock, L: Lock> Lock for CombinedLocks<R, L> {
}

/// The per-thread handle of a `LocalCache`: one handle on the local backend
/// and one on the remote.
pub struct LocalCacheThread<L: BackendThread, R: BackendThread> {
    local: L,
    remote: R,
}

impl<L: Backend, R: Backend> LocalCache<L, R> {
    /// The backend that holds the local copies.
    pub closed spec fn local_backend(self) -> L {
        self.local
    }

    /// The backend that holds the truth.
    pub closed spec fn remote_backend(self) -> R {
        self.remote
    }

    /// A cache that keeps in `local` what it reads from and writes to
    /// `remote`.
    pub fn new(local: L, remote: R) -> (cache: Self)
        ensures
            cache.local_backend() == local,
            cache.remote_backend() == remote,
    {
        LocalCache { local, remote }
    }

    /// Whoever holds a lock on the cache, shared or exclusive, holds the
    /// local backend's exclusive lock, and with it the remote's lock of the
    /// kind that was asked for. So where the local backend's exclusive lock
    /// keeps every other holder out, no two locks on one local cache are
    /// held at a time.
    pub proof fn lemma_locks_hold_local_exclusive(self, locks: CombinedLocks<R::Lock, L::Lock>)
        requires
            self.lock_shared_spec(Ok(locks)) || self.lock_exclusive_spec(Ok(locks)),
        ensures
            self.local_backend().lock_exclusive_spec(Ok(locks.local_lock())),
            self.lock_shared_spec(Ok(locks)) ==> self.remote_backend().lock_shared_spec(
                Ok(locks.remote_lock()),
            ),
            self.lock_exclusive_spec(Ok(locks)) ==> self.remote_backend().lock_exclusive_spec(
                Ok(locks.remote_lock()),
            ),
    {
    }
}

impl<L: Backend, R: Backend> Backend for LocalCache<L, R> {
    type Lock = CombinedLocks<R::Lock, L::Lock>;

    type Thread = LocalCacheThread<L::Thread, R::Thread>;

    /// The remote's lock is taken first and the local lock only once the
    /// remote's is held; a failure on either side is the failure of the
    /// whole, and a remote lock already taken is then given up.
    open spec fn lock_exclusive_spec(self, r: Result<Self::Lock, Error>) -> bool {
        match r {
            Ok(locks) => {
                &&& self.remote_backend().lock_exclusive_spec(Ok(locks.remote_lock()))
                &&& self.local_backend().lock_exclusive_spec(Ok(locks.local_lock()))
            },
            Err(e) => {
                ||| self.remote_backend().lock_exclusive_spec(Err(e))
                ||| exists|held: R::Lock| #[trigger]
                    self.remote_backend().lock_exclusive_spec(Ok(held))
                        && self.local_backend().lock_exclusive_spec(Err(e))
            },
        }
    }

    fn lock_exclusive(&self) -> (r: Result<Self::Lock, Error>) {
        let remote_lock = match self.remote.lock_exclusive() {
            Ok(lock) => lock,
            Err(e) => { return Err(e); },
        };
        let local_lock = match self.local.lock_exclusive() {
            Ok(lock) => lock,
            Err(e) => { return Err(e); },
        };
        Ok(CombinedLocks::new(remote_lock, local_lock))
    }

    /// A shared lock on the cache is the remote's shared lock and the local
    /// backend's exclusive lock: a read that misses writes to the local
    /// backend, so one local cache serves one session at a time.
    open spec fn lock_shared_spec(self, r: Result<Self::Lock, Error>) -> bool {
        match r {
            Ok(locks) => {
                &&& self.remote_backend().lock_shared_spec(Ok(locks.remote_lock()))
                &&& self.local_backend().lock_exclusive_spec(Ok(locks.local_lock()))
            },
            Err(e) => {
                ||| self.remote_backend().lock_shared_spec(Err(e))
                ||| exists|held: R::Lock| #[trigger]
                    self.remote_backend().lock_shared_spec(Ok(held))
                        && self.local_backend().lock_exclusive_spec(Err(e))
            },
        }
    }

    fn lock_shared(&self) -> (r: Result<Self::Lock, Error>) {
        let remote_lock = match self.remote.lock_shared() {
            Ok(lock) => lock,
            Err(e) => { return Err(e); },
        };
        let local_lock = match self.local.lock_exclusive() {
            Ok(lock) => lock,
            Err(e) => { return Err(e); },
        };
        Ok(CombinedLocks::new(remote_lock, local_lock))
    }

    /// A handle on the cache is a handle on each backend, the local one
    /// made first; a failure on either side is the failure of the whole.
    open spec fn new_thread_spec(self, r: Result<Self::Thread, Error>) -> bool {
        match r {
            Ok(thread) => {
                &&& self.local_backend().new_thread_spec(Ok(thread.local_thread()))
                &&& self.remote_backend().new_thread_spec(Ok(thread.remote_thread()))
            },
            Err(e) => {
                ||| self.local_backend().new_thread_spec(Err(e))
                ||| exists|local: L::Thread| #[trigger]
                    self.local_backend().new_thread_spec(Ok(local))
                        && self.remote_backend().new_thread_spec(Err(e))
            },
        }
    }

    fn new_thread(&self) -> (r: Result<Self::Thread, Error>) {
        let local_thread = match self.local.new_thread() {
            Ok(thread) => thread,
            Err(e) => { return Err(e); },
        };
        let remote_thread = match self.remote.new_thread() {
            Ok(thread) => thread,
            Err(e) => { return Err(e); },
        };
        Ok(LocalCacheThread { local: local_thread, remote: remote_thread })
    }
}

impl<L: BackendThread, R: BackendThread> LocalCacheThread<L, R> {
    /// The handle on the local backend.
    pub closed spec fn local_thread(self) -> L {
        self.local
    }

    /// The handle on the remote backend.
    pub closed spec fn remote_thread(self) -> R {
        self.remote
    }

    /// The handle on the local backend.
    pub fn local(&self) -> (local: &L)
        ensures
            *local == self.local_thread(),
    {
        &self.local
    }

    /// The handle on the remote backend.
    pub fn remote(&self) -> (remote: &R)
        ensures
            *remote == self.remote_thread(),
    {
        &self.remote
    }
}

/// How a change ends once the remote has answered. A change that the
/// remote accepted is made on the local backend too, and `local_step` says
/// whether the local backend may have come from `local_before` to
/// `local_after` with the result `r`. A change that the remote refused is
/// not made locally: the local backend stays as it was, and the remote's
/// failure is the result.
pub open spec fn mirrored<L>(
    remote_result: Result<(), Error>,
    local_step: bool,
    local_before: L,
    local_after: L,
    r: Result<(), Error>,
) -> bool {
    match remote_result {
        Ok(()) => local_step,
        Err(e) => r == Err::<(), Error>(e) && local_after == local_before,
    }
}

/// A change that the remote refused leaves the local backend exactly as it
/// was, and fails as the remote did.
pub proof fn lemma_refused_change_is_not_mirrored<L>(
    remote_result: Result<(), Error>,
    local_step: bool,
    local_before: L,
    local_after: L,
    r: Result<(), Error>,
)
    requires
        mirrored(remote_result, local_step, local_before, local_after, r),
        remote_result is Err,
    ensures
        local_after == local_before,
        r == remote_result,
{
}

/// A local backend that gives back what was written to it: a read that
/// directly follows a successful write of the same path succeeds, with the
/// bytes that were written.
pub open spec fn reads_own_writes<L: BackendThread>() -> bool {
    forall|
        before: L,
        path: Seq<char>,
        data: SGData,
        idempotent: bool,
        written: L,
        after: L,
        r: Result<SGData, Error>,
    |
        #![trigger before.write_spec(path, data, idempotent, written, Ok(())), written.read_spec(path, after, r)]
        before.write_spec(path, data, idempotent, written, Ok(())) && written.read_spec(
            path,
            after,
            r,
        ) ==> r is Ok && sg_parts(r->Ok_0) == sg_parts(data)
}

impl<L: BackendThread, R: BackendThread> LocalCacheThread<L, R> {
    /// A write, given what the remote answered: the remote is handed a copy
    /// of `data` first, and the local backend `data` itself if the remote
    /// accepted.
    pub open spec fn write_via(
        self,
        path: Seq<char>,
        data: SGData,
        idempotent: bool,
        after: Self,
        remote_result: Result<(), Error>,
        r: Result<(), Error>,
    ) -> bool {
        &&& exists|sent: SGData|
            {
                &&& sg_parts(sent) == sg_parts(data)
                &&& #[trigger] self.remote_thread().write_spec(
                    path,
                    sent,
                    idempotent,
                    after.remote_thread(),
                    remote_result,
                )
            }
        &&& mirrored(
            remote_result,
            self.local_thread().write_spec(path, data, idempotent, after.local_thread(), r),
            self.local_thread(),
            after.local_thread(),
            r,
        )
    }

    /// A read that the local backend answers. The remote is not asked.
    pub open spec fn read_hit(self, path: Seq<char>, after: Self, r: Result<SGData, Error>) -> bool {
        &&& r is Ok
        &&& self.local_thread().read_spec(path, after.local_thread(), r)
        &&& after.remote_thread() == self.remote_thread()
    }

    /// A read that the local backend fails and the remote fails too: the
    /// remote's failure is the result.
    pub open spec fn read_miss_failed(
        self,
        path: Seq<char>,
        after: Self,
        r: Result<SGData, Error>,
    ) -> bool {
        &&& r is Err
        &&& exists|missed: Error| #[trigger]
            self.local_thread().read_spec(
                path,
                after.local_thread(),
                Err::<SGData, Error>(missed),
            )
        &&& self.remote_thread().read_spec(path, after.remote_thread(), r)
    }

    /// A read that the local backend fails and the remote answers: the
    /// remote's answer is the result, and the local backend is asked to keep
    /// a copy of it, as content that is new to it. `cached` is what came of
    /// that; it does not reach the caller.
    pub open spec fn read_miss_fetched(
        self,
        path: Seq<char>,
        after: Self,
        cached: Result<(), Error>,
        r: Result<SGData, Error>,
    ) -> bool {
        &&& r is Ok
        &&& self.remote_thread().read_spec(path, after.remote_thread(), r)
        &&& exists|missed: Error, looked: L, kept: SGData|
            {
                &&& #[trigger] self.local_thread().read_spec(
                    path,
                    looked,
                    Err::<SGData, Error>(missed),
                )
                &&& sg_parts(kept) == sg_parts(r->Ok_0)
                &&& #[trigger] looked.write_spec(path, kept, false, after.local_thread(), cached)
            }
    }

    /// After a successful write through the cache, a read of the same path
    /// succeeds with the bytes that were written, and the remote is not
    /// asked: it need not be reachable. This rests on the local backend
    /// giving back what was written to it, and on nothing about the remote.
    pub proof fn lemma_read_after_write(
        self,
        path: Seq<char>,
        data: SGData,
        idempotent: bool,
        written: Self,
        after: Self,
        r: Result<SGData, Error>,
    )
        requires
            reads_own_writes::<L>(),
            self.write_spec(path, data, idempotent, written, Ok(())),
            written.read_spec(path, after, r),
        ensures
            r is Ok,
            sg_parts(r->Ok_0) == sg_parts(data),
            written.read_hit(path, after, r),
            after.remote_thread() == written.remote_thread(),
    {
        let remote_result = choose|remote_result: Result<(), Error>|
            self.write_via(path, data, idempotent, written, remote_result, Ok(()));
        assert(self.local_thread().write_spec(
            path,
            data,
            idempotent,
            written.local_thread(),
            Ok(()),
        ));
        if written.read_miss_failed(path, after, r) {
            let missed = choose|missed: Error| #[trigger]
                written.local_thread().read_spec(
                    path,
                    after.local_thread(),
                    Err::<SGData, Error>(missed),
                );
            assert(false);
        }
        if exists|cached: Result<(), Error>| written.read_miss_fetched(path, after, cached, r) {
            let cached = choose|cached: Result<(), Error>|
                written.read_miss_fetched(path, after, cached, r);
            let (missed, looked, kept) = choose|missed: Error, looked: L, kept: SGData|
                {
                    &&& #[trigger] written.local_thread().read_spec(
                        path,
                        looked,
                        Err::<SGData, Error>(missed),
                    )
                    &&& sg_parts(kept) == sg_parts(r->Ok_0)
                    &&& #[trigger] looked.write_spec(
                        path,
                        kept,
                        false,
                        after.local_thread(),
                        cached,
                    )
                };
            assert(false);
        }
    }

    /// A write whose remote call failed leaves the local backend exactly as
    /// it was, and fails as the remote did.
    pub proof fn lemma_failed_write_leaves_local(
        self,
        path: Seq<char>,
        data: SGData,
        idempotent: bool,
        after: Self,
        remote_result: Result<(), Error>,
        r: Result<(), Error>,
    )
        requires
            self.write_via(path, data, idempotent, after, remote_result, r),
            remote_result is Err,
        ensures
            after.local_thread() == self.local_thread(),
            r == remote_result,
    {
    }

    /// A read that missed locally and was answered by the remote returns
    /// what the remote returned, whether or not the local backend could keep
    /// the copy.
    pub proof fn lemma_fetched_read_returns_remote_answer(
        self,
        path: Seq<char>,
        after: Self,
        cached: Result<(), Error>,
        r: Result<SGData, Error>,
    )
        requires
            self.read_miss_fetched(path, after, cached, r),
        ensures
            r is Ok,
            self.remote_thread().read_spec(path, after.remote_thread(), r),
            self.read_spec(path, after, r),
    {
    }

    /// Where the local backend kept the copy of a read that the remote
    /// answered, the next read of that path is answered locally, with the
    /// same bytes. This rests on the local backend giving back what was
    /// written to it.
    pub proof fn lemma_fetched_read_is_kept(
        self,
        path: Seq<char>,
        fetched: Self,
        first: Result<SGData, Error>,
        after: Self,
        second: Result<SGData, Error>,
    )
        requires
            reads_own_writes::<L>(),
            self.read_miss_fetched(path, fetched, Ok(()), first),
            fetched.read_spec(path, after, second),
        ensures
            second is Ok,
            sg_parts(second->Ok_0) == sg_parts(first->Ok_0),
            fetched.read_hit(path, after, second),
    {
        let (missed, looked, kept) = choose|missed: Error, looked: L, kept: SGData|
            {
                &&& #[trigger] self.local_thread().read_spec(
                    path,
                    looked,
                    Err::<SGData, Error>(missed),
                )
                &&& sg_parts(kept) == sg_parts(first->Ok_0)
                &&& #[trigger] looked.write_spec(path, kept, false, fetched.local_thread(), Ok(()))
            };
        if fetched.read_miss_failed(path, after, second) {
            let m = choose|m: Error| #[trigger]
                fetched.local_thread().read_spec(
                    path,
                    after.local_thread(),
                    Err::<SGData, Error>(m),
                );
            assert(false);
        }
        if exists|cached: Result<(), Error>|
            fetched.read_miss_fetched(path, after, cached, second) {
            let cached = choose|cached: Result<(), Error>|
                fetched.read_miss_fetched(path, after, cached, second);
            let (m, l, k) = choose|m: Error, l: L, k: SGData|
                {
                    &&& #[trigger] fetched.local_thread().read_spec(
                        path,
                        l,
                        Err::<SGData, Error>(m),
                    )
                    &&& sg_parts(k) == sg_parts(second->Ok_0)
                    &&& #[trigger] l.write_spec(path, k, false, after.local_thread(), cached)
                };
            assert(false);
        }
    }

    /// What a listing returns does not depend on the local backend: two
    /// caches over the same remote list alike, whatever each holds locally,
    /// and neither's local backend is touched.
    pub proof fn lemma_list_ignores_local(
        self,
        other: Self,
        path: Seq<char>,
        after: Self,
        other_after: Self,
        r: Result<Vec<String>, Error>,
    )
        requires
            self.list_spec(path, after, r),
            other.remote_thread() == self.remote_thread(),
            other_after.remote_thread() == after.remote_thread(),
            other_after.local_thread() == other.local_thread(),
        ensures
            other.list_spec(path, other_after, r),
            after.local_thread() == self.local_thread(),
            self.remote_thread().list_spec(path, after.remote_thread(), r),
    {
    }

    /// What a recursive listing sends does not depend on the local backend,
    /// as for `list`.
    pub proof fn lemma_list_recursively_ignores_local(
        self,
        other: Self,
        path: Seq<char>,
        tx: Sender<Batch>,
        after: Self,
        other_after: Self,
    )
        requires
            self.list_recursively_spec(path, tx, after),
            other.remote_thread() == self.remote_thread(),
            other_after.remote_thread() == after.remote_thread(),
            other_after.local_thread() == other.local_thread(),
        ensures
            other.list_recursively_spec(path, tx, other_after),
            after.local_thread() == self.local_thread(),
            self.remote_thread().list_recursively_spec(path, tx, after.remote_thread()),
    {
    }
}

impl<L: BackendThread, R: BackendThread> BackendThread for LocalCacheThread<L, R> {
    /// The remote removes first; the local backend follows only if the
    /// remote succeeded.
    open spec fn remove_dir_all_spec(self, path: Seq<char>, after: Self, r: Result<(), Error>) -> bool {
        exists|remote_result: Result<(), Error>|
            {
                &&& #[trigger] self.remote_thread().remove_dir_all_spec(
                    path,
                    after.remote_thread(),
                    remote_result,
                )
                &&& mirrored(
                    remote_result,
                    self.local_thread().remove_dir_all_spec(path, after.local_thread(), r),
                    self.local_thread(),
                    after.local_thread(),
                    r,
                )
            }
    }

    fn remove_dir_all(&mut self, path: String) -> (r: Result<(), Error>) {
        let ghost before = *self;
        let result = self.remote.remove_dir_all(path.clone());
        assert(before.remote_thread().remove_dir_all_spec(path@, self.remote_thread(), result));
        match result {
            Ok(()) => {
                let r = self.local.remove_dir_all(path);
                assert(before.remote_thread().remove_dir_all_spec(
                    path@,
                    self.remote_thread(),
                    result,
                ));
                r
            },
            Err(e) => Err(e),
        }
    }

    /// The remote renames first; the local backend follows only if the
    /// remote succeeded.
    open spec fn rename_spec(
        self,
        src_path: Seq<char>,
        dst_path: Seq<char>,
        after: Self,
        r: Result<(), Error>,
    ) -> bool {
        exists|remote_result: Result<(), Error>|
            {
                &&& #[trigger] self.remote_thread().rename_spec(
                    src_path,
                    dst_path,
                    after.remote_thread(),
                    remote_result,
                )
                &&& mirrored(
                    remote_result,
                    self.local_thread().rename_spec(src_path, dst_path, after.local_thread(), r),
                    self.local_thread(),
                    after.local_thread(),
                    r,
                )
            }
    }

    fn rename(&mut self, src_path: String, dst_path: String) -> (r: Result<(), Error>) {
        let ghost before = *self;
        let result = self.remote.rename(src_path.clone(), dst_path.clone());
        assert(before.remote_thread().rename_spec(
            src_path@,
            dst_path@,
            self.remote_thread(),
            result,
        ));
        match result {
            Ok(()) => {
                let r = self.local.rename(src_path, dst_path);
                assert(before.remote_thread().rename_spec(
                    src_path@,
                    dst_path@,
                    self.remote_thread(),
                    result,
                ));
                r
            },
            Err(e) => Err(e),
        }
    }

    /// The remote writes first; the local backend follows only if the
    /// remote succeeded.
    open spec fn write_spec(
        self,
        path: Seq<char>,
        data: SGData,
        idempotent: bool,
        after: Self,
        r: Result<(), Error>,
    ) -> bool {
        exists|remote_result: Result<(), Error>| #[trigger]
            self.write_via(path, data, idempotent, after, remote_result, r)
    }

    fn write(&mut self, path: String, data: SGData, idempotent: bool) -> (r: Result<(), Error>) {
        let ghost before = *self;
        let sent = data.clone();
        let result = self.remote.write(path.clone(), sent, idempotent);
        assert(before.remote_thread().write_spec(
            path@,
            sent,
            idempotent,
            self.remote_thread(),
            result,
        ));
        match result {
            Ok(()) => {
                let r = self.local.write(path, data, idempotent);
                assert(before.remote_thread().write_spec(
                    path@,
                    sent,
                    idempotent,
                    self.remote_thread(),
                    result,
                ));
                assert(before.write_via(path@, data, idempotent, *self, result, r));
                r
            },
            Err(e) => {
                assert(before.write_via(path@, data, idempotent, *self, result, Err(e)));
                Err(e)
            },
        }
    }

    /// The local backend answers, or else the remote does, and what it
    /// answers with is kept locally.
    open spec fn read_spec(self, path: Seq<char>, after: Self, r: Result<SGData, Error>) -> bool {
        ||| self.read_hit(path, after, r)
        ||| self.read_miss_failed(path, after, r)
        ||| exists|cached: Result<(), Error>| self.read_miss_fetched(path, after, cached, r)
    }

    fn read(&mut self, path: String) -> (r: Result<SGData, Error>) {
        let ghost before = *self;
        let result = self.local.read(path.clone());
        let ghost looked = self.local_thread();
        assert(before.local_thread().read_spec(path@, looked, result));
        match result {
            Ok(data) => {
                assert(before.read_hit(path@, *self, result));
                Ok(data)
            },
            Err(missed) => {
                assert(before.local_thread().read_spec(
                    path@,
                    looked,
                    Err::<SGData, Error>(missed),
                ));
                let fetched = self.remote.read(path.clone());
                assert(before.remote_thread().read_spec(path@, self.remote_thread(), fetched));
                match fetched {
                    Ok(data) => {
                        let kept = data.clone();
                        // A copy that cannot be kept does not fail the read.
                        let cached = self.local.write(path, kept, false);
                        assert(looked.write_spec(path@, kept, false, self.local_thread(), cached));
                        assert(before.remote_thread().read_spec(
                            path@,
                            self.remote_thread(),
                            fetched,
                        ));
                        assert(before.read_miss_fetched(path@, *self, cached, fetched));
                        Ok(data)
                    },
                    Err(e) => {
                        assert(before.local_thread().read_spec(
                            path@,
                            self.local_thread(),
                            Err::<SGData, Error>(missed),
                        ));
                        assert(before.read_miss_failed(path@, *self, fetched));
                        Err(e)
                    },
                }
            },
        }
    }

    /// The remote removes first; the local backend follows only if the
    /// remote succeeded.
    open spec fn remove_spec(self, path: Seq<char>, after: Self, r: Result<(), Error>) -> bool {
        exists|remote_result: Result<(), Error>|
            {
                &&& #[trigger] self.remote_thread().remove_spec(
                    path,
                    after.remote_thread(),
                    remote_result,
                )
                &&& mirrored(
                    remote_result,
                    self.local_thread().remove_spec(path, after.local_thread(), r),
                    self.local_thread(),
                    after.local_thread(),
                    r,
                )
            }
    }

    fn remove(&mut self, path: String) -> (r: Result<(), Error>) {
        let ghost before = *self;
        let result = self.remote.remove(path.clone());
        assert(before.remote_thread().remove_spec(path@, self.remote_thread(), result));
        match result {
            Ok(()) => {
                let r = self.local.remove(path);
                assert(before.remote_thread().remove_spec(path@, self.remote_thread(), result));
                r
            },
            Err(e) => Err(e),
        }
    }

    /// Metadata comes from the remote alone; the local backend is not asked.
    open spec fn read_metadata_spec(
        self,
        path: Seq<char>,
        after: Self,
        r: Result<Metadata, Error>,
    ) -> bool {
        &&& self.remote_thread().read_metadata_spec(path, after.remote_thread(), r)
        &&& after.local_thread() == self.local_thread()
    }

    fn read_metadata(&mut self, path: String) -> (r: Result<Metadata, Error>) {
        self.remote.read_metadata(path)
    }

    /// A listing comes from the remote alone; the local backend is not
    /// asked.
    open spec fn list_spec(self, path: Seq<char>, after: Self, r: Result<Vec<String>, Error>) -> bool {
        &&& self.remote_thread().list_spec(path, after.remote_thread(), r)
        &&& after.local_thread() == self.local_thread()
    }

    fn list(&mut self, path: String) -> (r: Result<Vec<String>, Error>) {
        self.remote.list(path)
    }

    /// A recursive listing comes from the remote alone; the local backend
    /// is not asked.
    open spec fn list_recursively_spec(self, path: Seq<char>, tx: Sender<Batch>, after: Self) -> bool {
        &&& self.remote_thread().list_recursively_spec(path, tx, after.remote_thread())
        &&& after.local_thread() == self.local_thread()
    }

    fn list_recursively(&mut self, path: String, tx: Sender<Batch>) {
        self.remote.list_recursively(path, tx)
    }
}

} // verus!
