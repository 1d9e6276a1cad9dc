//! The recursive listing of the HTTP backend, as a walk that its caller
//! drives.
//!
//! A tree on the server may be of any depth and size. The walk keeps the
//! directories it has yet to ask for on a stack of its own and hands the
//! files it finds on in batches, so that neither the call depth nor what is
//! held in memory grows with the tree.

use vstd::prelude::*;
use vstd::string::*;
use crate::error::Error;
use crate::http::{
    checked_listing, endpoint, endpoint_of, listing, DirectoryEntry, EntryView,
    HttpReadOnlyThread, Response,
};
use crate::path::joined;

verus! {

/// How many paths a batch may hold before it is sent on: a batch is sent as
/// soon as it holds more.
pub const BATCH_LIMIT: usize = 100;

/// The paths of the files among a directory's entries, in the order of the
/// listing.
pub open spec fn files_in(dir: Seq<char>, entries: Seq<EntryView>) -> Seq<Seq<char>>
    decreases entries.len(),
{
    if entries.len() == 0 {
        Seq::empty()
    } else if entries.last().is_file() {
        files_in(dir, entries.drop_last()).push(joined(dir, entries.last().name))
    } else {
        files_in(dir, entries.drop_last())
    }
}

/// The paths of the entries of a directory that are not files, in the order
/// of the listing. Each is taken for a directory to walk in turn.
pub open spec fn directories_in(dir: Seq<char>, entries: Seq<EntryView>) -> Seq<Seq<char>>
    decreases entries.len(),
{
    if entries.len() == 0 {
        Seq::empty()
    } else if entries.last().is_file() {
        directories_in(dir, entries.drop_last())
    } else {
        directories_in(dir, entries.drop_last()).push(joined(dir, entries.last().name))
    }
}

/// A walk over a subtree of the server, one directory at a time.
///
/// The walk decides and its caller acts: `next` says what to do, and after a
/// fetch `visit` takes in what the server answered. The directories still to
/// be asked for are kept on a stack, so the walk is as deep as the tree
/// without a call ever nesting; the files found are gathered into batches.
pub struct Walk {
    base_url: String,
    pending: Vec<String>,
    batch: Vec<String>,
}

/// A `Walk` as plain values: the server's URL, the directories still to be
/// asked for (the next one last) and the files found but not yet sent.
pub struct WalkView {
    pub base: Seq<char>,
    pub pending: Seq<Seq<char>>,
    pub batch: Seq<Seq<char>>,
}

impl View for Walk {
    type V = WalkView;

    closed spec fn view(&self) -> WalkView {
        WalkView {
            base: self.base_url@,
            pending: self.pending.deep_view(),
            batch: self.batch.deep_view(),
        }
    }
}

/// What a walk asks of its caller.
pub enum Step {
    /// Ask the server for `url`, then hand `dir` and the answer to `visit`.
    Fetch { dir: String, url: String },
    /// Send this on to whoever receives the listing.
    Send(Result<Vec<String>, Error>),
    /// Nothing is left to do.
    Done,
}

/// A `Step` as plain values.
pub enum StepView {
    Fetch { dir: Seq<char>, url: Seq<char> },
    Send(Result<Seq<Seq<char>>, Error>),
    Done,
}

/// A batch, or a failure, as plain values.
pub open spec fn sent_view(item: Result<Vec<String>, Error>) -> Result<Seq<Seq<char>>, Error> {
    match item {
        Ok(paths) => Ok(paths.deep_view()),
        Err(e) => Err(e),
    }
}

impl View for Step {
    type V = StepView;

    open spec fn view(&self) -> StepView {
        match *self {
            Step::Fetch { dir, url } => StepView::Fetch { dir: dir@, url: url@ },
            Step::Send(item) => StepView::Send(sent_view(item)),
            Step::Done => StepView::Done,
        }
    }
}

/// The walk after `next`, and what `next` returns. While directories are
/// pending the last one is taken off: it is to be fetched, or, where its
/// path gives no URL, that failure is to be sent. Once none is pending, what
/// is left of the batch is to be sent; after that the walk is done.
pub open spec fn after_next(walk: WalkView) -> (WalkView, StepView) {
    if walk.pending.len() > 0 {
        let dir = walk.pending.last();
        let rest = WalkView {
            base: walk.base,
            pending: walk.pending.drop_last(),
            batch: walk.batch,
        };
        match endpoint(walk.base, dir) {
            Ok(url) => (rest, StepView::Fetch { dir, url }),
            Err(e) => (rest, StepView::Send(Err(e))),
        }
    } else if walk.batch.len() > 0 {
        (
            WalkView { base: walk.base, pending: walk.pending, batch: Seq::empty() },
            StepView::Send(Ok(walk.batch)),
        )
    } else {
        (walk, StepView::Done)
    }
}

/// The walk after `visit`, and what `visit` returns to be sent on, for the
/// server's answer `reply` to the request for the directory `dir`. An answer
/// that is refused is that one failure and leaves the walk as it was.
/// Otherwise the files of the listing join the batch and its other entries
/// the pending directories, and a batch of more than `BATCH_LIMIT` paths is
/// sent whole.
pub open spec fn after_visit(
    walk: WalkView,
    dir: Seq<char>,
    reply: Option<Response<Vec<DirectoryEntry>>>,
) -> (WalkView, Option<Result<Seq<Seq<char>>, Error>>) {
    match listing(reply, true) {
        Err(e) => (walk, Some(Err(e))),
        Ok(entries) => {
            let batch = walk.batch + files_in(dir, entries);
            let pending = walk.pending + directories_in(dir, entries);
            if batch.len() > BATCH_LIMIT {
                (WalkView { base: walk.base, pending, batch: Seq::empty() }, Some(Ok(batch)))
            } else {
                (WalkView { base: walk.base, pending, batch }, None)
            }
        },
    }
}

/// What `visit` returns, as plain values.
pub open spec fn visit_view(out: Option<Result<Vec<String>, Error>>) -> Option<
    Result<Seq<Seq<char>>, Error>,
> {
    match out {
        Some(item) => Some(sent_view(item)),
        None => None,
    }
}

/// A walk that is about to start at `root`, on the server at `base`: only
/// `root` is pending, and nothing has been found.
pub open spec fn started(base: Seq<char>, root: Seq<char>) -> WalkView {
    WalkView { base, pending: seq![root], batch: Seq::empty() }
}

impl HttpReadOnlyThread {
    /// Starts a walk over the subtree at `path`.
    pub fn list_recursively(&self, path: String) -> (walk: Walk)
        ensures
            walk@ == started(self.base(), path@),
    {
        let mut pending: Vec<String> = Vec::new();
        pending.push(path);
        let batch: Vec<String> = Vec::with_capacity(128);
        let walk = Walk { base_url: self.base_url().clone(), pending, batch };
        assert(walk.pending.deep_view() =~= seq![path@]);
        assert(walk.batch.deep_view() =~= Seq::<Seq<char>>::empty());
        walk
    }
}

impl Walk {
    /// Says what the caller is to do next.
    pub fn next(&mut self) -> (step: Step)
        ensures
            (final(self)@, step@) == after_next(old(self)@),
    {
        let ghost before = self@;
        match self.pending.pop() {
            Some(dir) => {
                assert(self.pending.deep_view() =~= before.pending.drop_last());
                assert(dir@ == before.pending.last());
                match endpoint_of(self.base_url.as_str(), dir.as_str()) {
                    Ok(url) => Step::Fetch { dir, url },
                    Err(e) => Step::Send(Err(e)),
                }
            },
            None => {
                assert(before.pending.len() == 0);
                if self.batch.len() > 0 {
                    let mut rest: Vec<String> = Vec::new();
                    std::mem::swap(&mut self.batch, &mut rest);
                    assert(self.batch.deep_view() =~= Seq::<Seq<char>>::empty());
                    Step::Send(Ok(rest))
                } else {
                    assert(before.batch.len() == 0);
                    Step::Done
                }
            },
        }
    }

    /// Takes in the server's answer `reply` to the request for the directory
    /// `dir`, and returns what is to be sent on because of it, if anything.
    pub fn visit(
        &mut self,
        dir: &str,
        reply: Option<Response<Vec<DirectoryEntry>>>,
    ) -> (out: Option<Result<Vec<String>, Error>>)
        ensures
            (final(self)@, visit_view(out)) == after_visit(old(self)@, dir@, reply),
    {
        let ghost before = self@;
        let entries = match checked_listing(reply, true) {
            Ok(entries) => entries,
            Err(e) => { return Some(Err(e)); },
        };
        let ghost all = entries.deep_view();
        let mut i: usize = 0;
        assert(all.subrange(0, 0) =~= Seq::<EntryView>::empty());
        assert(self.batch.deep_view() =~= before.batch + files_in(dir@, all.subrange(0, 0)));
        assert(self.pending.deep_view() =~= before.pending + directories_in(
            dir@,
            all.subrange(0, 0),
        ));
        while i < entries.len()
            invariant
                i <= entries.len(),
                all == entries.deep_view(),
                self.base_url@ == before.base,
                self.batch.deep_view() == before.batch + files_in(dir@, all.subrange(0, i as int)),
                self.pending.deep_view() == before.pending + directories_in(
                    dir@,
                    all.subrange(0, i as int),
                ),
            decreases entries.len() - i,
        {
            let ghost seen = all.subrange(0, i as int);
            let ghost more = all.subrange(0, i + 1);
            assert(more.drop_last() =~= seen);
            assert(more.last() == entries[i as int]@);
            let ghost batch = self.batch.deep_view();
            let ghost pending = self.pending.deep_view();
            let file_path = crate::path::join(dir, entries[i].name.as_str());
            if entries[i].is_file() {
                self.batch.push(file_path);
                assert(self.batch.deep_view() =~= batch.push(file_path@));
                assert(self.batch.deep_view() =~= before.batch + files_in(dir@, more));
            } else {
                self.pending.push(file_path);
                assert(self.pending.deep_view() =~= pending.push(file_path@));
                assert(self.pending.deep_view() =~= before.pending + directories_in(dir@, more));
            }
            i = i + 1;
        }
        assert(all.subrange(0, i as int) =~= all);
        if self.batch.len() > BATCH_LIMIT {
            let mut full: Vec<String> = Vec::new();
            std::mem::swap(&mut self.batch, &mut full);
            assert(self.batch.deep_view() =~= Seq::<Seq<char>>::empty());
            Some(Ok(full))
        } else {
            None
        }
    }
}

} // verus!
