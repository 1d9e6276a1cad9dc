//! What a walk finds, held against what the server holds.
//!
//! A server is taken for what it answers: a function from the URL asked for
//! to the response. Against such a server a walk is run round by round, and
//! what it sends is compared with the files of the tree that the server's
//! listings describe.

use vstd::multiset::Multiset;
use vstd::prelude::*;
use crate::error::Error;
use crate::http::{endpoint, listing, DirectoryEntry, EntryView, Response};
use crate::path::joined;
use crate::walk::{
    after_next, after_visit, directories_in, files_in, started, StepView, WalkView, BATCH_LIMIT,
};

verus! {

/// What is sent in one round of a walk against a server that answers the
/// request for a URL with `server(url)`, and the walk after it. A round is
/// one call of `next`, and the call of `visit` that follows where `next`
/// asked for a fetch.
pub open spec fn round(
    server: spec_fn(Seq<char>) -> Option<Response<Vec<DirectoryEntry>>>,
    walk: WalkView,
) -> (WalkView, Seq<Result<Seq<Seq<char>>, Error>>) {
    let (asked, step) = after_next(walk);
    match step {
        StepView::Done => (asked, Seq::empty()),
        StepView::Send(item) => (asked, seq![item]),
        StepView::Fetch { dir, url } => {
            let (visited, out) = after_visit(asked, dir, server(url));
            match out {
                Some(item) => (visited, seq![item]),
                None => (visited, Seq::empty()),
            }
        },
    }
}

/// All that is sent in the first `n` rounds of a walk, in order, and the
/// walk after them.
pub open spec fn rounds(
    server: spec_fn(Seq<char>) -> Option<Response<Vec<DirectoryEntry>>>,
    walk: WalkView,
    n: nat,
) -> (WalkView, Seq<Result<Seq<Seq<char>>, Error>>)
    decreases n,
{
    if n == 0 {
        (walk, Seq::empty())
    } else {
        let (next, first) = round(server, walk);
        let (last, rest) = rounds(server, next, (n - 1) as nat);
        (last, first + rest)
    }
}

/// The paths in the batches among what was sent, one batch after another.
pub open spec fn paths_sent(sent: Seq<Result<Seq<Seq<char>>, Error>>) -> Seq<Seq<char>>
    decreases sent.len(),
{
    if sent.len() == 0 {
        Seq::empty()
    } else {
        match sent.last() {
            Ok(batch) => paths_sent(sent.drop_last()) + batch,
            Err(_) => paths_sent(sent.drop_last()),
        }
    }
}

/// What the server has to say of the directory `dir`: its listing, or why
/// there is none to be had.
pub open spec fn answer(
    server: spec_fn(Seq<char>) -> Option<Response<Vec<DirectoryEntry>>>,
    base: Seq<char>,
    dir: Seq<char>,
) -> Result<Seq<EntryView>, Error> {
    match endpoint(base, dir) {
        Ok(url) => listing(server(url), true),
        Err(e) => Err(e),
    }
}

/// The directories that are pending once `n` directories have been taken
/// off the stack `pending` and asked for, fewer if the stack ran empty.
pub open spec fn pending_after(
    server: spec_fn(Seq<char>) -> Option<Response<Vec<DirectoryEntry>>>,
    base: Seq<char>,
    pending: Seq<Seq<char>>,
    n: nat,
) -> Seq<Seq<char>>
    decreases n,
{
    if n == 0 || pending.len() == 0 {
        pending
    } else {
        match answer(server, base, pending.last()) {
            Ok(entries) => pending_after(
                server,
                base,
                pending.drop_last() + directories_in(pending.last(), entries),
                (n - 1) as nat,
            ),
            Err(_) => pending_after(server, base, pending.drop_last(), (n - 1) as nat),
        }
    }
}

/// The files found by taking `n` directories off the stack `pending` and
/// asking for each, fewer if the stack ran empty: the files of each listing
/// in its order, one listing after another. Batches play no part in it.
pub open spec fn found(
    server: spec_fn(Seq<char>) -> Option<Response<Vec<DirectoryEntry>>>,
    base: Seq<char>,
    pending: Seq<Seq<char>>,
    n: nat,
) -> Seq<Seq<char>>
    decreases n,
{
    if n == 0 || pending.len() == 0 {
        Seq::empty()
    } else {
        match answer(server, base, pending.last()) {
            Ok(entries) => files_in(pending.last(), entries) + found(
                server,
                base,
                pending.drop_last() + directories_in(pending.last(), entries),
                (n - 1) as nat,
            ),
            Err(_) => found(server, base, pending.drop_last(), (n - 1) as nat),
        }
    }
}

proof fn lemma_paths_sent_one(item: Result<Seq<Seq<char>>, Error>)
    ensures
        paths_sent(seq![item]) == match item {
            Ok(batch) => batch,
            Err(_) => Seq::empty(),
        },
{
    let one = seq![item];
    assert(one.drop_last() =~= Seq::empty());
    assert(one.last() == item);
    assert(paths_sent(one.drop_last()) =~= Seq::<Seq<char>>::empty());
    match item {
        Ok(batch) => {
            assert(paths_sent(one) =~= batch);
        },
        Err(_) => {},
    }
}

proof fn lemma_paths_sent_after_first(
    first: Seq<Result<Seq<Seq<char>>, Error>>,
    rest: Seq<Result<Seq<Seq<char>>, Error>>,
)
    requires
        first.len() <= 1,
    ensures
        paths_sent(first + rest) == paths_sent(first) + paths_sent(rest),
    decreases rest.len(),
{
    if rest.len() == 0 {
        assert(first + rest =~= first);
        assert(paths_sent(first) + paths_sent(rest) =~= paths_sent(first));
    } else {
        let all = first + rest;
        assert(all.drop_last() =~= first + rest.drop_last());
        assert(all.last() == rest.last());
        lemma_paths_sent_after_first(first, rest.drop_last());
        match rest.last() {
            Ok(batch) => {
                assert(paths_sent(all) =~= paths_sent(first) + (paths_sent(rest.drop_last())
                    + batch));
            },
            Err(_) => {},
        }
    }
}

/// Batching neither drops a path nor sends one twice. After any number of
/// rounds, the paths sent so far followed by the paths still in the batch
/// are the paths that were in the batch at the start followed by the files
/// found since, in the order they were found; and the directories pending
/// are those that a walk without batches would have pending.
pub proof fn lemma_batches_hold_what_was_found(
    server: spec_fn(Seq<char>) -> Option<Response<Vec<DirectoryEntry>>>,
    walk: WalkView,
    n: nat,
)
    ensures
        paths_sent(rounds(server, walk, n).1) + rounds(server, walk, n).0.batch == walk.batch
            + found(server, walk.base, walk.pending, n),
        rounds(server, walk, n).0.pending == pending_after(server, walk.base, walk.pending, n),
        rounds(server, walk, n).0.base == walk.base,
    decreases n,
{
    let (last, sent) = rounds(server, walk, n);
    if n == 0 {
        assert(paths_sent(sent) + last.batch =~= walk.batch + found(
            server,
            walk.base,
            walk.pending,
            n,
        ));
    } else {
        let (next, first) = round(server, walk);
        let (_, rest) = rounds(server, next, (n - 1) as nat);
        lemma_batches_hold_what_was_found(server, next, (n - 1) as nat);
        lemma_paths_sent_after_first(first, rest);
        if first.len() == 1 {
            assert(first =~= seq![first[0]]);
            lemma_paths_sent_one(first[0]);
        }
        if walk.pending.len() > 0 {
            let dir = walk.pending.last();
            match answer(server, walk.base, dir) {
                Ok(entries) => {
                    let url = endpoint(walk.base, dir)->Ok_0;
                    assert(listing(server(url), true) == Ok::<Seq<EntryView>, Error>(entries));
                    let gathered = walk.batch + files_in(dir, entries);
                    let later = found(
                        server,
                        walk.base,
                        walk.pending.drop_last() + directories_in(dir, entries),
                        (n - 1) as nat,
                    );
                    if gathered.len() > BATCH_LIMIT {
                        assert(first == seq![Ok::<Seq<Seq<char>>, Error>(gathered)]);
                        assert(paths_sent(first) =~= gathered);
                        assert(next.batch =~= Seq::<Seq<char>>::empty());
                        assert(paths_sent(sent) + last.batch =~= gathered + (paths_sent(rest)
                            + last.batch));
                        assert(paths_sent(rest) + last.batch =~= later);
                    } else {
                        assert(paths_sent(first) =~= Seq::<Seq<char>>::empty());
                        assert(paths_sent(sent) + last.batch =~= paths_sent(rest) + last.batch);
                    }
                    assert(paths_sent(sent) + last.batch =~= walk.batch + (files_in(dir, entries)
                        + later));
                },
                Err(e) => {
                    assert(first == seq![Err::<Seq<Seq<char>>, Error>(e)]);
                    assert(paths_sent(first) =~= Seq::<Seq<char>>::empty());
                    assert(paths_sent(sent) + last.batch =~= paths_sent(rest) + last.batch);
                },
            }
        } else if walk.batch.len() > 0 {
            assert(first == seq![Ok::<Seq<Seq<char>>, Error>(walk.batch)]);
            assert(paths_sent(first) =~= walk.batch);
            assert(next.batch =~= Seq::<Seq<char>>::empty());
            assert(paths_sent(rest) + last.batch =~= Seq::<Seq<char>>::empty());
            assert(paths_sent(sent) + last.batch =~= walk.batch + (paths_sent(rest) + last.batch));
            assert(paths_sent(sent) + last.batch =~= walk.batch + found(
                server,
                walk.base,
                walk.pending,
                n,
            ));
        } else {
            assert(paths_sent(first) =~= Seq::<Seq<char>>::empty());
            assert(paths_sent(sent) + last.batch =~= paths_sent(rest) + last.batch);
            assert(paths_sent(sent) + last.batch =~= walk.batch + found(
                server,
                walk.base,
                walk.pending,
                n,
            ));
        }
    }
}

/// Whether the server lists `path` in the directory `dir`, as a file
/// (`as_file`) or as something else.
pub open spec fn is_listed(
    server: spec_fn(Seq<char>) -> Option<Response<Vec<DirectoryEntry>>>,
    base: Seq<char>,
    dir: Seq<char>,
    as_file: bool,
    path: Seq<char>,
) -> bool {
    match answer(server, base, dir) {
        Ok(entries) => exists|i: int|
            0 <= i < entries.len() && (#[trigger] entries[i]).is_file() == as_file && path
                == joined(dir, entries[i].name),
        Err(_) => false,
    }
}

/// Whether `dir` lies `depth` levels below `top` on the server: each level
/// is a directory that the server lists in the one above as something other
/// than a file, and answers for with a listing.
pub open spec fn lies_below(
    server: spec_fn(Seq<char>) -> Option<Response<Vec<DirectoryEntry>>>,
    base: Seq<char>,
    top: Seq<char>,
    dir: Seq<char>,
    depth: nat,
) -> bool
    decreases depth,
{
    if depth == 0 {
        dir == top
    } else {
        exists|child: Seq<char>|
            #[trigger] is_listed(server, base, top, false, child) && lies_below(
                server,
                base,
                child,
                dir,
                (depth - 1) as nat,
            )
    }
}

/// Whether `file` is a file of the directory `dir`, which lies `depth`
/// levels below the `k`-th of `roots`.
pub open spec fn is_file_below(
    server: spec_fn(Seq<char>) -> Option<Response<Vec<DirectoryEntry>>>,
    base: Seq<char>,
    roots: Seq<Seq<char>>,
    k: int,
    dir: Seq<char>,
    depth: nat,
    file: Seq<char>,
) -> bool {
    &&& 0 <= k < roots.len()
    &&& lies_below(server, base, roots[k], dir, depth)
    &&& is_listed(server, base, dir, true, file)
}

/// Whether `file` is a file of the trees that the server holds below
/// `roots`: a file of one of the roots, or of a directory at any depth below
/// one.
pub open spec fn in_tree(
    server: spec_fn(Seq<char>) -> Option<Response<Vec<DirectoryEntry>>>,
    base: Seq<char>,
    roots: Seq<Seq<char>>,
    file: Seq<char>,
) -> bool {
    exists|k: int, dir: Seq<char>, depth: nat| #[trigger]
        is_file_below(server, base, roots, k, dir, depth, file)
}

proof fn lemma_files_in(dir: Seq<char>, entries: Seq<EntryView>, path: Seq<char>)
    ensures
        files_in(dir, entries).contains(path) <==> exists|i: int|
            0 <= i < entries.len() && (#[trigger] entries[i]).is_file() && path == joined(
                dir,
                entries[i].name,
            ),
    decreases entries.len(),
{
    if entries.len() > 0 {
        let head = entries.drop_last();
        let last = entries.last();
        lemma_files_in(dir, head, path);
        let listed = files_in(dir, entries);
        if listed.contains(path) {
            let at = choose|at: int| 0 <= at < listed.len() && listed[at] == path;
            if last.is_file() && at == listed.len() - 1 {
                assert(entries[entries.len() - 1].is_file());
            } else {
                assert(files_in(dir, head)[at] == path);
                assert(files_in(dir, head).contains(path));
                let i = choose|i: int|
                    0 <= i < head.len() && (#[trigger] head[i]).is_file() && path == joined(
                        dir,
                        head[i].name,
                    );
                assert(entries[i].is_file());
            }
        }
        if exists|i: int|
            0 <= i < entries.len() && (#[trigger] entries[i]).is_file() && path == joined(
                dir,
                entries[i].name,
            ) {
            let i = choose|i: int|
                0 <= i < entries.len() && (#[trigger] entries[i]).is_file() && path == joined(
                    dir,
                    entries[i].name,
                );
            if i == entries.len() - 1 {
                assert(listed.last() == path);
            } else {
                assert(head[i].is_file());
                assert(files_in(dir, head).contains(path));
                let at = choose|at: int|
                    0 <= at < files_in(dir, head).len() && files_in(dir, head)[at] == path;
                assert(listed[at] == path);
            }
        }
    }
}

proof fn lemma_directories_in(dir: Seq<char>, entries: Seq<EntryView>, path: Seq<char>)
    ensures
        directories_in(dir, entries).contains(path) <==> exists|i: int|
            0 <= i < entries.len() && !(#[trigger] entries[i]).is_file() && path == joined(
                dir,
                entries[i].name,
            ),
    decreases entries.len(),
{
    if entries.len() > 0 {
        let head = entries.drop_last();
        let last = entries.last();
        lemma_directories_in(dir, head, path);
        let listed = directories_in(dir, entries);
        if listed.contains(path) {
            let at = choose|at: int| 0 <= at < listed.len() && listed[at] == path;
            if !last.is_file() && at == listed.len() - 1 {
                assert(!entries[entries.len() - 1].is_file());
            } else {
                assert(directories_in(dir, head)[at] == path);
                assert(directories_in(dir, head).contains(path));
                let i = choose|i: int|
                    0 <= i < head.len() && !(#[trigger] head[i]).is_file() && path == joined(
                        dir,
                        head[i].name,
                    );
                assert(!entries[i].is_file());
            }
        }
        if exists|i: int|
            0 <= i < entries.len() && !(#[trigger] entries[i]).is_file() && path == joined(
                dir,
                entries[i].name,
            ) {
            let i = choose|i: int|
                0 <= i < entries.len() && !(#[trigger] entries[i]).is_file() && path == joined(
                    dir,
                    entries[i].name,
                );
            if i == entries.len() - 1 {
                assert(listed.last() == path);
            } else {
                assert(!head[i].is_file());
                assert(directories_in(dir, head).contains(path));
                let at = choose|at: int|
                    0 <= at < directories_in(dir, head).len() && directories_in(dir, head)[at]
                        == path;
                assert(listed[at] == path);
            }
        }
    }
}

proof fn lemma_contains_either<A>(a: Seq<A>, b: Seq<A>, x: A)
    ensures
        (a + b).contains(x) <==> a.contains(x) || b.contains(x),
{
    if (a + b).contains(x) {
        let i = choose|i: int| 0 <= i < (a + b).len() && (a + b)[i] == x;
        if i < a.len() {
            assert(a[i] == x);
        } else {
            assert(b[i - a.len()] == x);
        }
    }
    if a.contains(x) {
        let i = choose|i: int| 0 <= i < a.len() && a[i] == x;
        assert((a + b)[i] == x);
    }
    if b.contains(x) {
        let i = choose|i: int| 0 <= i < b.len() && b[i] == x;
        assert((a + b)[a.len() + i] == x);
    }
}

/// A walk finds nothing but files of the trees below the directories it
/// started from.
pub proof fn lemma_found_is_in_tree(
    server: spec_fn(Seq<char>) -> Option<Response<Vec<DirectoryEntry>>>,
    base: Seq<char>,
    pending: Seq<Seq<char>>,
    n: nat,
    file: Seq<char>,
)
    requires
        found(server, base, pending, n).contains(file),
    ensures
        in_tree(server, base, pending, file),
    decreases n,
{
    if n > 0 && pending.len() > 0 {
        let top = pending.last();
        let rest = pending.drop_last();
        let last = pending.len() - 1;
        match answer(server, base, top) {
            Ok(entries) => {
                let more = rest + directories_in(top, entries);
                let later = found(server, base, more, (n - 1) as nat);
                lemma_contains_either(files_in(top, entries), later, file);
                if files_in(top, entries).contains(file) {
                    lemma_files_in(top, entries, file);
                    assert(is_file_below(server, base, pending, last, top, 0, file));
                } else {
                    lemma_found_is_in_tree(server, base, more, (n - 1) as nat, file);
                    let (k, dir, depth) = choose|k: int, dir: Seq<char>, depth: nat| #[trigger]
                        is_file_below(server, base, more, k, dir, depth, file);
                    if k < rest.len() {
                        assert(more[k] == pending[k]);
                        assert(is_file_below(server, base, pending, k, dir, depth, file));
                    } else {
                        let child = more[k];
                        assert(child == directories_in(top, entries)[k - rest.len()]);
                        assert(directories_in(top, entries).contains(child));
                        lemma_directories_in(top, entries, child);
                        assert(is_listed(server, base, top, false, child));
                        assert(lies_below(server, base, top, dir, depth + 1));
                        assert(is_file_below(server, base, pending, last, dir, depth + 1, file));
                    }
                }
            },
            Err(_) => {
                lemma_found_is_in_tree(server, base, rest, (n - 1) as nat, file);
                let (k, dir, depth) = choose|k: int, dir: Seq<char>, depth: nat| #[trigger]
                    is_file_below(server, base, rest, k, dir, depth, file);
                assert(rest[k] == pending[k]);
                assert(is_file_below(server, base, pending, k, dir, depth, file));
            },
        }
    }
}

/// A walk that has run until no directory is pending has found every file
/// of the trees below the directories it started from.
pub proof fn lemma_tree_is_found(
    server: spec_fn(Seq<char>) -> Option<Response<Vec<DirectoryEntry>>>,
    base: Seq<char>,
    pending: Seq<Seq<char>>,
    n: nat,
    file: Seq<char>,
)
    requires
        pending_after(server, base, pending, n).len() == 0,
        in_tree(server, base, pending, file),
    ensures
        found(server, base, pending, n).contains(file),
    decreases n,
{
    let (k, dir, depth) = choose|k: int, dir: Seq<char>, depth: nat| #[trigger]
        is_file_below(server, base, pending, k, dir, depth, file);
    let top = pending.last();
    let rest = pending.drop_last();
    let last = pending.len() - 1;
    match answer(server, base, top) {
        Ok(entries) => {
            let more = rest + directories_in(top, entries);
            let later = found(server, base, more, (n - 1) as nat);
            lemma_contains_either(files_in(top, entries), later, file);
            if k < last {
                assert(more[k] == pending[k]);
                assert(is_file_below(server, base, more, k, dir, depth, file));
                lemma_tree_is_found(server, base, more, (n - 1) as nat, file);
            } else if depth == 0 {
                lemma_files_in(top, entries, file);
            } else {
                let child = choose|child: Seq<char>|
                    #[trigger] is_listed(server, base, top, false, child) && lies_below(
                        server,
                        base,
                        child,
                        dir,
                        (depth - 1) as nat,
                    );
                lemma_directories_in(top, entries, child);
                let listed = directories_in(top, entries);
                let j = choose|j: int| 0 <= j < listed.len() && listed[j] == child;
                assert(more[rest.len() + j] == child);
                assert(is_file_below(
                    server,
                    base,
                    more,
                    rest.len() + j,
                    dir,
                    (depth - 1) as nat,
                    file,
                ));
                lemma_tree_is_found(server, base, more, (n - 1) as nat, file);
            }
        },
        Err(_) => {
            if k < last {
                assert(rest[k] == pending[k]);
                assert(is_file_below(server, base, rest, k, dir, depth, file));
                lemma_tree_is_found(server, base, rest, (n - 1) as nat, file);
            } else if depth > 0 {
                let child = choose|child: Seq<char>|
                    #[trigger] is_listed(server, base, top, false, child) && lies_below(
                        server,
                        base,
                        child,
                        dir,
                        (depth - 1) as nat,
                    );
            }
        },
    }
}

/// The files of the trees that the server holds below `roots`, down to
/// `depth` levels, each as often as it is listed: the files of the roots
/// themselves at one level, those of the directories listed in them at two,
/// and so on. A directory that the server does not answer for with a
/// listing holds nothing.
pub open spec fn forest(
    server: spec_fn(Seq<char>) -> Option<Response<Vec<DirectoryEntry>>>,
    base: Seq<char>,
    roots: Seq<Seq<char>>,
    depth: nat,
) -> Multiset<Seq<char>>
    decreases depth, roots.len(),
{
    if roots.len() == 0 || depth == 0 {
        Multiset::empty()
    } else {
        forest(server, base, roots.drop_last(), depth).add(
            match answer(server, base, roots.last()) {
                Ok(entries) => files_in(roots.last(), entries).to_multiset().add(
                    forest(
                        server,
                        base,
                        directories_in(roots.last(), entries),
                        (depth - 1) as nat,
                    ),
                ),
                Err(_) => Multiset::empty(),
            },
        )
    }
}

proof fn lemma_forest_of_both(
    server: spec_fn(Seq<char>) -> Option<Response<Vec<DirectoryEntry>>>,
    base: Seq<char>,
    left: Seq<Seq<char>>,
    right: Seq<Seq<char>>,
    depth: nat,
)
    ensures
        forest(server, base, left + right, depth) == forest(server, base, left, depth).add(
            forest(server, base, right, depth),
        ),
    decreases right.len(),
{
    broadcast use vstd::multiset::group_multiset_axioms;

    if right.len() == 0 || depth == 0 {
        assert(left + right =~= left || depth == 0);
        assert(forest(server, base, left + right, depth) =~= forest(
            server,
            base,
            left,
            depth,
        ).add(forest(server, base, right, depth)));
    } else {
        let all = left + right;
        assert(all.drop_last() =~= left + right.drop_last());
        assert(all.last() == right.last());
        lemma_forest_of_both(server, base, left, right.drop_last(), depth);
        assert(forest(server, base, all, depth) =~= forest(server, base, left, depth).add(
            forest(server, base, right, depth),
        ));
    }
}

proof fn lemma_forest_grows(
    server: spec_fn(Seq<char>) -> Option<Response<Vec<DirectoryEntry>>>,
    base: Seq<char>,
    roots: Seq<Seq<char>>,
    depth: nat,
    deeper: nat,
)
    requires
        depth <= deeper,
    ensures
        forest(server, base, roots, depth).subset_of(forest(server, base, roots, deeper)),
    decreases depth, roots.len(),
{
    broadcast use vstd::multiset::group_multiset_axioms;

    if roots.len() > 0 && depth > 0 {
        lemma_forest_grows(server, base, roots.drop_last(), depth, deeper);
        match answer(server, base, roots.last()) {
            Ok(entries) => {
                lemma_forest_grows(
                    server,
                    base,
                    directories_in(roots.last(), entries),
                    (depth - 1) as nat,
                    (deeper - 1) as nat,
                );
            },
            Err(_) => {},
        }
    }
}

/// Two parts that each can only grow, and whose sum did not grow, did not
/// grow either.
proof fn lemma_parts_of_equal_sums<A>(
    a: Multiset<A>,
    b: Multiset<A>,
    a_more: Multiset<A>,
    b_more: Multiset<A>,
)
    requires
        a.subset_of(a_more),
        b.subset_of(b_more),
        a.add(b) == a_more.add(b_more),
    ensures
        a == a_more,
        b == b_more,
{
    broadcast use vstd::multiset::group_multiset_axioms;

    assert forall|x: A| #[trigger] a.count(x) == a_more.count(x) by {
        assert(a.add(b).count(x) == a.count(x) + b.count(x));
        assert(a_more.add(b_more).count(x) == a_more.count(x) + b_more.count(x));
        assert(a.count(x) <= a_more.count(x));
        assert(b.count(x) <= b_more.count(x));
    }
    assert forall|x: A| #[trigger] b.count(x) == b_more.count(x) by {
        assert(a.add(b).count(x) == a.count(x) + b.count(x));
        assert(a_more.add(b_more).count(x) == a_more.count(x) + b_more.count(x));
        assert(a.count(x) <= a_more.count(x));
        assert(b.count(x) <= b_more.count(x));
    }
    assert(a =~= a_more);
    assert(b =~= b_more);
}

/// Once a walk from `roots` has run until no directory is pending, the
/// trees below `roots` hold nothing deeper than the number of directories
/// it took to get there.
proof fn lemma_forest_is_whole(
    server: spec_fn(Seq<char>) -> Option<Response<Vec<DirectoryEntry>>>,
    base: Seq<char>,
    roots: Seq<Seq<char>>,
    n: nat,
    deeper: nat,
)
    requires
        pending_after(server, base, roots, n).len() == 0,
        n <= deeper,
    ensures
        forest(server, base, roots, n) == forest(server, base, roots, deeper),
    decreases n,
{
    broadcast use vstd::multiset::group_multiset_axioms;

    if roots.len() == 0 {
        assert(forest(server, base, roots, n) =~= forest(server, base, roots, deeper));
    } else {
        let top = roots.last();
        let rest = roots.drop_last();
        let less = (n - 1) as nat;
        let below = (deeper - 1) as nat;
        match answer(server, base, top) {
            Ok(entries) => {
                let listed = directories_in(top, entries);
                lemma_forest_is_whole(server, base, rest + listed, less, below);
                lemma_forest_is_whole(server, base, rest + listed, less, n);
                lemma_forest_is_whole(server, base, rest + listed, less, deeper);
                lemma_forest_of_both(server, base, rest, listed, less);
                lemma_forest_of_both(server, base, rest, listed, below);
                lemma_forest_of_both(server, base, rest, listed, n);
                lemma_forest_of_both(server, base, rest, listed, deeper);
                lemma_forest_grows(server, base, rest, less, below);
                lemma_forest_grows(server, base, listed, less, below);
                lemma_forest_grows(server, base, rest, less, n);
                lemma_forest_grows(server, base, listed, less, n);
                lemma_forest_grows(server, base, rest, less, deeper);
                lemma_forest_grows(server, base, listed, less, deeper);
                lemma_parts_of_equal_sums(
                    forest(server, base, rest, less),
                    forest(server, base, listed, less),
                    forest(server, base, rest, below),
                    forest(server, base, listed, below),
                );
                lemma_parts_of_equal_sums(
                    forest(server, base, rest, less),
                    forest(server, base, listed, less),
                    forest(server, base, rest, n),
                    forest(server, base, listed, n),
                );
                lemma_parts_of_equal_sums(
                    forest(server, base, rest, less),
                    forest(server, base, listed, less),
                    forest(server, base, rest, deeper),
                    forest(server, base, listed, deeper),
                );
            },
            Err(_) => {
                lemma_forest_is_whole(server, base, rest, less, n);
                lemma_forest_is_whole(server, base, rest, less, deeper);
            },
        }
    }
}

/// A walk that has run until no directory is pending has found each file of
/// the trees below the directories it started from exactly as often as the
/// server lists it: none is left out, and none is found more often than it
/// is listed.
pub proof fn lemma_found_is_the_forest(
    server: spec_fn(Seq<char>) -> Option<Response<Vec<DirectoryEntry>>>,
    base: Seq<char>,
    pending: Seq<Seq<char>>,
    n: nat,
    deeper: nat,
)
    requires
        pending_after(server, base, pending, n).len() == 0,
        n <= deeper,
    ensures
        found(server, base, pending, n).to_multiset() == forest(server, base, pending, deeper),
    decreases n,
{
    broadcast use vstd::multiset::group_multiset_axioms;

    lemma_forest_is_whole(server, base, pending, n, deeper);
    if pending.len() == 0 {
        assert(found(server, base, pending, n) =~= Seq::<Seq<char>>::empty());
        Seq::<Seq<char>>::empty().to_multiset_ensures();
        assert(Seq::<Seq<char>>::empty().to_multiset() =~= Multiset::empty());
        assert(forest(server, base, pending, n) =~= Multiset::empty());
    } else {
        let top = pending.last();
        let rest = pending.drop_last();
        let less = (n - 1) as nat;
        match answer(server, base, top) {
            Ok(entries) => {
                let listed = directories_in(top, entries);
                let later = found(server, base, rest + listed, less);
                lemma_found_is_the_forest(server, base, rest + listed, less, less);
                vstd::seq_lib::lemma_multiset_commutative(files_in(top, entries), later);
                lemma_forest_of_both(server, base, rest, listed, less);
                lemma_forest_of_both(server, base, rest, listed, n);
                lemma_forest_is_whole(server, base, rest + listed, less, n);
                lemma_forest_grows(server, base, rest, less, n);
                lemma_forest_grows(server, base, listed, less, n);
                lemma_parts_of_equal_sums(
                    forest(server, base, rest, less),
                    forest(server, base, listed, less),
                    forest(server, base, rest, n),
                    forest(server, base, listed, n),
                );
                assert(found(server, base, pending, n).to_multiset() =~= forest(
                    server,
                    base,
                    pending,
                    n,
                ));
            },
            Err(_) => {
                lemma_found_is_the_forest(server, base, rest, less, n);
                assert(found(server, base, pending, n).to_multiset() =~= forest(
                    server,
                    base,
                    pending,
                    n,
                ));
            },
        }
    }
}

/// Whether a walk has nothing left to do.
pub open spec fn is_finished(walk: WalkView) -> bool {
    walk.pending.len() == 0 && walk.batch.len() == 0
}

/// A walk that started at `root` and has nothing left to do has sent each
/// file of the tree below `root` exactly as often as the server lists it,
/// whatever the batches they went out in: where the server lists no file
/// twice, each was sent once. `depth` is any depth from the number of rounds
/// on; the tree holds nothing below it.
pub proof fn lemma_finished_walk_sent_each_file_as_listed(
    server: spec_fn(Seq<char>) -> Option<Response<Vec<DirectoryEntry>>>,
    base: Seq<char>,
    root: Seq<char>,
    n: nat,
    depth: nat,
)
    requires
        is_finished(rounds(server, started(base, root), n).0),
        n <= depth,
    ensures
        paths_sent(rounds(server, started(base, root), n).1).to_multiset() == forest(
            server,
            base,
            seq![root],
            depth,
        ),
{
    let start = started(base, root);
    let (last, sent) = rounds(server, start, n);
    lemma_batches_hold_what_was_found(server, start, n);
    assert(last.batch =~= Seq::<Seq<char>>::empty());
    assert(paths_sent(sent) =~= paths_sent(sent) + last.batch);
    assert(paths_sent(sent) =~= found(server, base, seq![root], n));
    lemma_found_is_the_forest(server, base, seq![root], n, depth);
}

/// A walk that started at `root` and has nothing left to do has sent the
/// files of the tree below `root`, all of them and nothing else, whatever
/// the batches they went out in. A directory that the server did not answer
/// for with a listing counts as holding nothing.
pub proof fn lemma_finished_walk_sent_the_tree(
    server: spec_fn(Seq<char>) -> Option<Response<Vec<DirectoryEntry>>>,
    base: Seq<char>,
    root: Seq<char>,
    n: nat,
    file: Seq<char>,
)
    requires
        is_finished(rounds(server, started(base, root), n).0),
    ensures
        paths_sent(rounds(server, started(base, root), n).1).contains(file) <==> in_tree(
            server,
            base,
            seq![root],
            file,
        ),
{
    let start = started(base, root);
    let (last, sent) = rounds(server, start, n);
    lemma_batches_hold_what_was_found(server, start, n);
    assert(last.batch =~= Seq::<Seq<char>>::empty());
    assert(paths_sent(sent) =~= paths_sent(sent) + last.batch);
    assert(paths_sent(sent) =~= found(server, base, seq![root], n));
    if found(server, base, seq![root], n).contains(file) {
        lemma_found_is_in_tree(server, base, seq![root], n, file);
    }
    if in_tree(server, base, seq![root], file) {
        lemma_tree_is_found(server, base, seq![root], n, file);
    }
}

} // verus!
