//! The contract every storage backend meets.
//!
//! A `Backend` stands for one storage target. It hands out locks and one
//! `BackendThread` per worker thread; the thread handle does the reads and
//! writes, and is never shared between threads.
//!
//! An implementation says what each of its operations may do through the
//! spec function that goes with it (`read_spec` for `read`, and so on): a
//! relation between the handle before the call, the arguments, the handle
//! after the call and the result. An implementation that says nothing
//! leaves everything open. Nothing else is promised on a backend's behalf,
//! so code that is generic over backends is proved for every
//! implementation, whatever it does.

use vstd::prelude::*;
use sgdata::SGData;
use std::sync::mpsc::Sender;
use crate::error::Error;
use crate::time::Timestamp;

verus! {

/// `std::sync::mpsc::Sender`, the sending half of a channel, carried as it
/// is. Nothing is claimed of it.
#[verifier::external_type_specification]
#[verifier::external_body]
#[verifier::reject_recursive_types(T)]
pub struct ExSender<T>(Sender<T>);

/// What a backend knows of one stored object, as of the call that asked.
#[derive(Clone, Copy, Debug, PartialEq, Eq, Structural)]
pub struct Metadata {
    pub len: u64,
    pub is_file: bool,
    pub created: Timestamp,
}

/// One batch of a recursive listing, or the failure of one subtree.
pub type Batch = Result<Vec<String>, Error>;

/// A held lock, exclusive or shared. It is released when the value is
/// dropped; there is no other way to give it up.
pub trait Lock {
}

/// A per-thread handle on a backend's data.
pub trait BackendThread: Sized {
    /// What one call of `remove_dir_all` may do.
    open spec fn remove_dir_all_spec(self, path: Seq<char>, after: Self, r: Result<(), Error>) -> bool {
        true
    }

    /// Deletes a directory and everything below it.
    fn remove_dir_all(&mut self, path: String) -> (r: Result<(), Error>)
        ensures
            old(self).remove_dir_all_spec(path@, *final(self), r),
    ;

    /// What one call of `rename` may do.
    open spec fn rename_spec(
        self,
        src_path: Seq<char>,
        dst_path: Seq<char>,
        after: Self,
        r: Result<(), Error>,
    ) -> bool {
        true
    }

    /// Moves an entry, in one step where the backend can.
    fn rename(&mut self, src_path: String, dst_path: String) -> (r: Result<(), Error>)
        ensures
            old(self).rename_spec(src_path@, dst_path@, *final(self), r),
    ;

    /// What one call of `write` may do.
    open spec fn write_spec(
        self,
        path: Seq<char>,
        data: SGData,
        idempotent: bool,
        after: Self,
        r: Result<(), Error>,
    ) -> bool {
        true
    }

    /// Stores `data` at `path`. With `idempotent` the caller says that the
    /// same content may rightly be there already; without it, that the path
    /// is not expected to hold other content, which a backend that can tell
    /// reports as a failure.
    fn write(&mut self, path: String, data: SGData, idempotent: bool) -> (r: Result<(), Error>)
        ensures
            old(self).write_spec(path@, data, idempotent, *final(self), r),
    ;

    /// What one call of `read` may do.
    open spec fn read_spec(self, path: Seq<char>, after: Self, r: Result<SGData, Error>) -> bool {
        true
    }

    /// Returns the whole content stored at `path`. A backend reports an
    /// object that is not there as `NotFound` and one that it cannot make
    /// sense of as `InvalidData`.
    fn read(&mut self, path: String) -> (r: Result<SGData, Error>)
        ensures
            old(self).read_spec(path@, *final(self), r),
    ;

    /// What one call of `remove` may do.
    open spec fn remove_spec(self, path: Seq<char>, after: Self, r: Result<(), Error>) -> bool {
        true
    }

    /// Deletes one entry. A backend reports one that is not there as
    /// `NotFound`.
    fn remove(&mut self, path: String) -> (r: Result<(), Error>)
        ensures
            old(self).remove_spec(path@, *final(self), r),
    ;

    /// What one call of `read_metadata` may do.
    open spec fn read_metadata_spec(
        self,
        path: Seq<char>,
        after: Self,
        r: Result<Metadata, Error>,
    ) -> bool {
        true
    }

    /// Describes the one entry at `path`. A backend reports an entry that is
    /// not there as `NotFound` and one that is no plain file as
    /// `InvalidData`.
    fn read_metadata(&mut self, path: String) -> (r: Result<Metadata, Error>)
        ensures
            old(self).read_metadata_spec(path@, *final(self), r),
    ;

    /// What one call of `list` may do.
    open spec fn list_spec(self, path: Seq<char>, after: Self, r: Result<Vec<String>, Error>) -> bool {
        true
    }

    /// Lists the immediate children of a directory, and nothing below them.
    fn list(&mut self, path: String) -> (r: Result<Vec<String>, Error>)
        ensures
            old(self).list_spec(path@, *final(self), r),
    ;

    /// What one call of `list_recursively` may do.
    open spec fn list_recursively_spec(self, path: Seq<char>, tx: Sender<Batch>, after: Self) -> bool {
        true
    }

    /// Walks the subtree below `path` and sends what it finds to `tx`, in
    /// batches, so that the receiver can start before the walk has ended. A
    /// subtree that cannot be listed is sent as its failure; the walk goes
    /// on with the rest.
    fn list_recursively(&mut self, path: String, tx: Sender<Batch>)
        ensures
            old(self).list_recursively_spec(path@, tx, *final(self)),
    ;
}

/// A handle on one storage target.
pub trait Backend: Sized {
    type Lock: Lock;

    type Thread: BackendThread;

    /// What one call of `lock_exclusive` may return.
    open spec fn lock_exclusive_spec(self, r: Result<Self::Lock, Error>) -> bool {
        true
    }

    /// Acquires the lock that excludes every other holder, exclusive or
    /// shared. A backend blocks or fails while another lock is held.
    fn lock_exclusive(&self) -> (r: Result<Self::Lock, Error>)
        ensures
            self.lock_exclusive_spec(r),
    ;

    /// What one call of `lock_shared` may return.
    open spec fn lock_shared_spec(self, r: Result<Self::Lock, Error>) -> bool {
        true
    }

    /// Acquires a lock that other shared holders may hold too. A backend
    /// blocks or fails only while the exclusive lock is held.
    fn lock_shared(&self) -> (r: Result<Self::Lock, Error>)
        ensures
            self.lock_shared_spec(r),
    ;

    /// What one call of `new_thread` may return.
    open spec fn new_thread_spec(self, r: Result<Self::Thread, Error>) -> bool {
        true
    }

    /// Makes an independent handle for one worker thread. It may be called
    /// any number of times; the handles share no state that they change.
    fn new_thread(&self) -> (r: Result<Self::Thread, Error>)
        ensures
            self.new_thread_spec(r),
    ;
}

} // verus!
