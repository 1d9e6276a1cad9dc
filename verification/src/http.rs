//! A read-only backend on a static HTTP file server.
//!
//! The server answers a directory with a JSON listing of its entries and a
//! file with its bytes. This module holds every decision the backend makes:
//! which URL to ask for, whether an answer is acceptable, and what the
//! caller gets. Sending the request and decoding the listing are the
//! caller's part: it hands in what came back as a `Response`.

use vstd::prelude::*;
use vstd::string::*;
use sgdata::SGData;
use crate::backend::{Lock, Metadata};
use crate::data::sg_parts;
use crate::error::Error;
use crate::path::{file_name, joined, parent};
use crate::time::{parsed, rfc3339_instant, Timestamp};

verus! {

/// `url::ParseError`, carried as it is. Nothing is claimed of it.
#[verifier::external_type_specification]
#[verifier::external_body]
pub struct ExUrlParseError(url::ParseError);

/// The URL that `reference` denotes relative to the URL `base`, in its
/// serialized form; `None` where `base` is no URL or `reference` cannot be
/// resolved against it.
pub uninterp spec fn resolved_url(base: Seq<char>, reference: Seq<char>) -> Option<Seq<char>>;

/// `url::Url::join`, on the URL that `url::Url::parse` reads from `base`,
/// with the result handed back as text. The claim is only that the outcome
/// is a function of the two strings, named `resolved_url`.
#[verifier::external_body]
fn resolve(base: &str, reference: &str) -> (r: Result<String, url::ParseError>)
    ensures
        match r {
            Ok(url) => resolved_url(base@, reference@) == Some(url@),
            Err(_) => resolved_url(base@, reference@) is None,
        },
{
    match url::Url::parse(base) {
        Ok(base) => match base.join(reference) {
            Ok(url) => Ok(url.into()),
            Err(e) => Err(e),
        },
        Err(e) => Err(e),
    }
}

/// What the server sent back for one request. `body` is `None` where the
/// body could not be received, or could not be decoded as a `B`.
#[derive(Clone, Debug)]
pub struct Response<B> {
    pub status: u16,
    pub content_type: Option<String>,
    pub body: Option<B>,
}

/// One record of a directory's listing, as the server wrote it. A record
/// of a file is expected to give its size.
#[derive(Clone, Debug)]
pub struct DirectoryEntry {
    pub name: String,
    pub modified_time: String,
    pub size: Option<u64>,
    pub kind: String,
}

/// A `DirectoryEntry` as plain values.
pub struct EntryView {
    pub name: Seq<char>,
    pub modified_time: Seq<char>,
    pub size: Option<u64>,
    pub kind: Seq<char>,
}

impl View for DirectoryEntry {
    type V = EntryView;

    open spec fn view(&self) -> EntryView {
        EntryView {
            name: self.name@,
            modified_time: self.modified_time@,
            size: self.size,
            kind: self.kind@,
        }
    }
}

impl DeepView for DirectoryEntry {
    type V = EntryView;

    open spec fn deep_view(&self) -> EntryView {
        self@
    }
}

impl EntryView {
    /// Whether the record describes a plain file.
    pub open spec fn is_file(self) -> bool {
        self.kind == "file"@
    }
}

impl DirectoryEntry {
    /// Whether the record describes a plain file.
    pub fn is_file(&self) -> (b: bool)
        ensures
            b == self@.is_file(),
    {
        self.kind == String::from_str("file")
    }
}

/// A status in the range that HTTP calls success.
pub open spec fn is_success_status(status: u16) -> bool {
    200 <= status < 300
}

/// The content types a file is served with.
pub open spec fn is_file_type(content_type: Seq<char>) -> bool {
    content_type == "application/octet-stream"@ || content_type == "text/x-yaml"@
}

/// The content type a directory listing is served with.
pub open spec fn is_directory_type(content_type: Seq<char>) -> bool {
    content_type == "application/json"@
}

/// Whether `header` declares a file's content.
pub fn is_file_content_type(header: &String) -> (b: bool)
    ensures
        b == is_file_type(header@),
{
    *header == String::from_str("application/octet-stream") || *header == String::from_str(
        "text/x-yaml",
    )
}

/// Whether `header` declares a directory's listing.
pub fn is_directory_content_type(header: &String) -> (b: bool)
    ensures
        b == is_directory_type(header@),
{
    *header == String::from_str("application/json")
}

impl<B> Response<B> {
    /// Whether the status is one of success.
    pub fn is_success(&self) -> (b: bool)
        ensures
            b == is_success_status(self.status),
    {
        200 <= self.status && self.status < 300
    }
}

/// The content type a response declares. One that declares none is
/// `InvalidData`.
pub fn get_content_type<B>(response: &Response<B>) -> (r: Result<&String, Error>)
    ensures
        match response.content_type {
            Some(header) => r == Ok::<&String, Error>(&header),
            None => r == Err::<&String, Error>(Error::InvalidData),
        },
{
    match &response.content_type {
        Some(header) => Ok(header),
        None => Err(Error::InvalidData),
    }
}

/// The lock a read-only server hands out: it holds nothing, since a static
/// server has nothing to hold. Shared access to it is not enforced.
#[derive(Debug)]
pub struct NoLock {}

impl Lock for NoLock {
}

/// A static HTTP file server, addressed by the URL of its root.
pub struct HttpReadOnly {
    base_url: String,
}

/// The per-thread handle of an `HttpReadOnly`.
pub struct HttpReadOnlyThread {
    base_url: String,
}

impl HttpReadOnly {
    /// The URL of the server's root, as text.
    pub closed spec fn base(self) -> Seq<char> {
        self.base_url@
    }

    /// A backend on the server whose root is at `base_url`.
    pub fn new(base_url: String) -> (backend: Self)
        ensures
            backend.base() == base_url@,
    {
        HttpReadOnly { base_url }
    }

    /// Always fails: a static server has no way to keep others out. No
    /// request is made.
    pub fn lock_exclusive(&self) -> (r: Result<NoLock, Error>)
        ensures
            r == Err::<NoLock, Error>(Error::ReadOnly),
    {
        Err(Error::ReadOnly)
    }

    /// Always succeeds; the lock holds nothing.
    pub fn lock_shared(&self) -> (r: Result<NoLock, Error>)
        ensures
            r == Ok::<NoLock, Error>(NoLock {  }),
    {
        Ok(NoLock {  })
    }

    /// Always succeeds, with a handle on the same server.
    pub fn new_thread(&self) -> (r: Result<HttpReadOnlyThread, Error>)
        ensures
            r is Ok,
            r->Ok_0.base() == self.base(),
    {
        Ok(HttpReadOnlyThread::new(self.base_url.clone()))
    }
}

/// The URL to ask for `path` on the server at `base`, or `InvalidData` where
/// there is none.
pub open spec fn endpoint(base: Seq<char>, path: Seq<char>) -> Result<Seq<char>, Error> {
    match resolved_url(base, path) {
        Some(url) => Ok(url),
        None => Err(Error::InvalidData),
    }
}

/// The URL to ask for `path` on the server at `base`.
pub(crate) fn endpoint_of(base: &str, path: &str) -> (r: Result<String, Error>)
    ensures
        match endpoint(base@, path@) {
            Ok(url) => r is Ok && r->Ok_0@ == url,
            Err(e) => r == Err::<String, Error>(e),
        },
{
    match resolve(base, path) {
        Ok(url) => Ok(url),
        Err(_) => Err(Error::InvalidData),
    }
}

/// What a caller of `read` gets for what the server sent back (`None`: the
/// request failed). An answer that is not declared as a file is refused,
/// so that a directory's listing is never taken for a file's content.
pub open spec fn read_outcome(reply: Option<Response<Vec<u8>>>) -> Result<Seq<u8>, Error> {
    match reply {
        None => Err(Error::ConnectionFailure),
        Some(response) => match response.content_type {
            None => Err(Error::InvalidData),
            Some(header) => if !is_file_type(header@) {
                Err(Error::InvalidData)
            } else {
                match response.body {
                    None => Err(Error::ConnectionFailure),
                    Some(bytes) => Ok(bytes@),
                }
            },
        },
    }
}

/// The listing in the server's answer to a request for a directory, or why
/// the answer is refused. `must_succeed` says whether a status outside the
/// success range is a reason.
pub open spec fn listing(
    reply: Option<Response<Vec<DirectoryEntry>>>,
    must_succeed: bool,
) -> Result<Seq<EntryView>, Error> {
    match reply {
        None => Err(Error::ConnectionFailure),
        Some(response) => if must_succeed && !is_success_status(response.status) {
            Err(Error::InvalidData)
        } else {
            match response.content_type {
                None => Err(Error::InvalidData),
                Some(header) => if !is_directory_type(header@) {
                    Err(Error::InvalidData)
                } else {
                    match response.body {
                        None => Err(Error::InvalidData),
                        Some(entries) => Ok(entries.deep_view()),
                    }
                },
            }
        },
    }
}

/// The first entry of a listing that bears `name`.
pub open spec fn first_named(entries: Seq<EntryView>, name: Seq<char>) -> Option<EntryView>
    decreases entries.len(),
{
    if entries.len() == 0 {
        None
    } else if entries[0].name == name {
        Some(entries[0])
    } else {
        first_named(entries.subrange(1, entries.len() as int), name)
    }
}

/// The metadata that a listing's record gives for a file. A record of
/// another kind, one whose time cannot be read and a file without a size
/// are all `InvalidData`.
pub open spec fn entry_metadata(entry: EntryView) -> Result<Metadata, Error> {
    if !entry.is_file() {
        Err(Error::InvalidData)
    } else {
        match parsed(rfc3339_instant(entry.modified_time)) {
            Err(e) => Err(e),
            Ok(created) => match entry.size {
                None => Err(Error::InvalidData),
                Some(len) => Ok(Metadata { len, is_file: true, created }),
            },
        }
    }
}

/// What a caller of `read_metadata` gets for `path`, given the server's
/// answer to the request for the listing of its parent directory.
pub open spec fn metadata_outcome(
    path: Seq<char>,
    reply: Option<Response<Vec<DirectoryEntry>>>,
) -> Result<Metadata, Error> {
    match listing(reply, false) {
        Err(e) => Err(e),
        Ok(entries) => match first_named(entries, file_name(path)) {
            None => Err(Error::NotFound),
            Some(entry) => entry_metadata(entry),
        },
    }
}

/// The paths of a directory's entries: each name joined onto the
/// directory's path, in the order of the listing.
pub open spec fn children(dir: Seq<char>, entries: Seq<EntryView>) -> Seq<Seq<char>> {
    Seq::new(entries.len(), |i: int| joined(dir, entries[i].name))
}

/// What a caller of `list` gets for `path`, given the server's answer to the
/// request for it.
pub open spec fn list_outcome(
    path: Seq<char>,
    reply: Option<Response<Vec<DirectoryEntry>>>,
) -> Result<Seq<Seq<char>>, Error> {
    match listing(reply, true) {
        Err(e) => Err(e),
        Ok(entries) => Ok(children(path, entries)),
    }
}

/// Holds an answer to a request for a directory to what `listing` asks.
pub(crate) fn checked_listing(
    reply: Option<Response<Vec<DirectoryEntry>>>,
    must_succeed: bool,
) -> (r: Result<Vec<DirectoryEntry>, Error>)
    ensures
        match listing(reply, must_succeed) {
            Ok(entries) => r is Ok && r->Ok_0.deep_view() == entries,
            Err(e) => r == Err::<Vec<DirectoryEntry>, Error>(e),
        },
{
    let response = match reply {
        Some(response) => response,
        None => { return Err(Error::ConnectionFailure); },
    };
    if must_succeed && !response.is_success() {
        return Err(Error::InvalidData);
    }
    let is_directory = match get_content_type(&response) {
        Ok(header) => is_directory_content_type(header),
        Err(e) => { return Err(e); },
    };
    if !is_directory {
        return Err(Error::InvalidData);
    }
    match response.body {
        Some(entries) => Ok(entries),
        None => Err(Error::InvalidData),
    }
}

/// Reads a file's metadata off its record in a listing.
fn metadata_of_entry(entry: &DirectoryEntry) -> (r: Result<Metadata, Error>)
    ensures
        r == entry_metadata(entry@),
{
    if !entry.is_file() {
        return Err(Error::InvalidData);
    }
    let created = match Timestamp::parse(entry.modified_time.as_str()) {
        Ok(created) => created,
        Err(e) => { return Err(e); },
    };
    match entry.size {
        Some(len) => Ok(Metadata { len, is_file: true, created }),
        None => Err(Error::InvalidData),
    }
}

impl HttpReadOnlyThread {
    /// The URL of the server's root, as text.
    pub closed spec fn base(self) -> Seq<char> {
        self.base_url@
    }

    /// A handle on the server whose root is at `base_url`.
    pub fn new(base_url: String) -> (thread: Self)
        ensures
            thread.base() == base_url@,
    {
        HttpReadOnlyThread { base_url }
    }

    /// The URL of the server's root, as the handle was given it.
    pub fn base_url(&self) -> (base_url: &String)
        ensures
            base_url@ == self.base(),
    {
        &self.base_url
    }

    /// The URL to ask for `path`.
    pub fn get_endpoint(&self, path: &str) -> (r: Result<String, Error>)
        ensures
            match endpoint(self.base(), path@) {
                Ok(url) => r is Ok && r->Ok_0@ == url,
                Err(e) => r == Err::<String, Error>(e),
            },
    {
        endpoint_of(self.base_url.as_str(), path)
    }

    /// Always fails: the server is read-only. No request is made.
    pub fn remove_dir_all(&mut self, _path: String) -> (r: Result<(), Error>)
        ensures
            r == Err::<(), Error>(Error::ReadOnly),
            *final(self) == *old(self),
    {
        Err(Error::ReadOnly)
    }

    /// Always fails: the server is read-only. No request is made.
    pub fn rename(&mut self, _src_path: String, _dst_path: String) -> (r: Result<(), Error>)
        ensures
            r == Err::<(), Error>(Error::ReadOnly),
            *final(self) == *old(self),
    {
        Err(Error::ReadOnly)
    }

    /// Always fails: the server is read-only. No request is made.
    pub fn write(&mut self, _path: String, _data: SGData, _idempotent: bool) -> (r: Result<(), Error>)
        ensures
            r == Err::<(), Error>(Error::ReadOnly),
            *final(self) == *old(self),
    {
        Err(Error::ReadOnly)
    }

    /// Always fails: the server is read-only. No request is made.
    pub fn remove(&mut self, _path: String) -> (r: Result<(), Error>)
        ensures
            r == Err::<(), Error>(Error::ReadOnly),
            *final(self) == *old(self),
    {
        Err(Error::ReadOnly)
    }

    /// The content of a file, from the server's answer to the request for
    /// its endpoint.
    pub fn read(&self, reply: Option<Response<Vec<u8>>>) -> (r: Result<SGData, Error>)
        ensures
            match read_outcome(reply) {
                Ok(bytes) => r is Ok && sg_parts(r->Ok_0) == seq![bytes],
                Err(e) => r == Err::<SGData, Error>(e),
            },
    {
        let response = match reply {
            Some(response) => response,
            None => { return Err(Error::ConnectionFailure); },
        };
        let is_file = match get_content_type(&response) {
            Ok(header) => is_file_content_type(header),
            Err(e) => { return Err(e); },
        };
        if !is_file {
            return Err(Error::InvalidData);
        }
        match response.body {
            Some(bytes) => Ok(SGData::from_single(bytes)),
            None => Err(Error::ConnectionFailure),
        }
    }

    /// The URL to ask for when the metadata of `path` is wanted: that of the
    /// directory that holds it, since the server describes a file only in
    /// its directory's listing.
    pub fn metadata_endpoint(&self, path: &str) -> (r: Result<String, Error>)
        ensures
            match endpoint(self.base(), parent(path@)) {
                Ok(url) => r is Ok && r->Ok_0@ == url,
                Err(e) => r == Err::<String, Error>(e),
            },
    {
        let parts = crate::path::split(path);
        self.get_endpoint(parts.0.as_str())
    }

    /// The metadata of the file at `path`, from the server's answer to the
    /// request for `metadata_endpoint(path)`.
    pub fn read_metadata(
        &self,
        path: &str,
        reply: Option<Response<Vec<DirectoryEntry>>>,
    ) -> (r: Result<Metadata, Error>)
        ensures
            r == metadata_outcome(path@, reply),
    {
        let parts = crate::path::split(path);
        let entries = match checked_listing(reply, false) {
            Ok(entries) => entries,
            Err(e) => { return Err(e); },
        };
        let ghost all = entries.deep_view();
        let mut i: usize = 0;
        assert(all.subrange(0, all.len() as int) =~= all);
        while i < entries.len()
            invariant
                i <= entries.len(),
                all == entries.deep_view(),
                listing(reply, false) == Ok::<Seq<EntryView>, Error>(all),
                parts.1@ == file_name(path@),
                first_named(all, file_name(path@)) == first_named(
                    all.subrange(i as int, all.len() as int),
                    file_name(path@),
                ),
            decreases entries.len() - i,
        {
            let ghost rest = all.subrange(i as int, all.len() as int);
            assert(rest[0] == entries[i as int]@);
            if entries[i].name == parts.1 {
                assert(first_named(rest, file_name(path@)) == Some(rest[0]));
                return metadata_of_entry(&entries[i]);
            }
            assert(rest.subrange(1, rest.len() as int) =~= all.subrange(i + 1, all.len() as int));
            i = i + 1;
        }
        Err(Error::NotFound)
    }

    /// The paths of the entries of the directory at `path`, from the
    /// server's answer to the request for its endpoint.
    pub fn list(
        &self,
        path: &str,
        reply: Option<Response<Vec<DirectoryEntry>>>,
    ) -> (r: Result<Vec<String>, Error>)
        ensures
            match list_outcome(path@, reply) {
                Ok(paths) => r is Ok && r->Ok_0.deep_view() == paths,
                Err(e) => r == Err::<Vec<String>, Error>(e),
            },
    {
        let entries = match checked_listing(reply, true) {
            Ok(entries) => entries,
            Err(e) => { return Err(e); },
        };
        let ghost all = entries.deep_view();
        let mut result: Vec<String> = Vec::with_capacity(128);
        let mut i: usize = 0;
        while i < entries.len()
            invariant
                i <= entries.len(),
                all == entries.deep_view(),
                result.len() == i,
                forall|k: int| 0 <= k < i ==> result[k]@ == joined(path@, #[trigger] all[k].name),
            decreases entries.len() - i,
        {
            assert(all[i as int] == entries[i as int]@);
            result.push(crate::path::join(path, entries[i].name.as_str()));
            i = i + 1;
        }
        assert(result.deep_view() =~= children(path@, all));
        Ok(result)
    }
}

} // verus!
