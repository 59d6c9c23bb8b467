//! Imports: a file is run once, and every import of it hands on what that
//! one run left on the stack.
//!
//! A file is known by its canonical path, which is for the host to find:
//! the cache compares the paths that it is given letter by letter.
//!
//! Running a file is the caller's business. The caller asks the cache with
//! [`ImportCache::lookup`]; where the file is not yet known it runs the file
//! and tells the cache with [`ImportCache::record`] what the run left.

use vstd::prelude::*;
use vstd::string::StringExecFns;
use crate::value::{Value, ValueView};

verus! {

/// The record of one imported file.
pub struct ImportView {
    /// The canonical path of the file.
    pub path: Seq<char>,
    /// What the file's code left on the stack, bottom first.
    pub values: Seq<ValueView>,
}

/// What has been imported in this run. It starts empty and nothing ever
/// leaves it.
#[derive(Debug)]
pub struct ImportCache {
    paths: Vec<String>,
    values: Vec<Vec<Value>>,
}

/// The views of a sequence of values.
pub open spec fn value_views(values: Seq<Value>) -> Seq<ValueView> {
    values.map_values(|v: Value| v@)
}

/// What the file `path` left on the stack when it ran, if it has run: the
/// values of the first record of it.
pub open spec fn recorded(cache: Seq<ImportView>, path: Seq<char>) -> Option<Seq<ValueView>>
    decreases cache.len(),
{
    if cache.len() == 0 {
        None
    } else {
        match recorded(cache.drop_last(), path) {
            Some(v) => Some(v),
            None => if cache.last().path == path {
                Some(cache.last().values)
            } else {
                None
            },
        }
    }
}

/// One import: the file asked for, and what its code would leave on the stack
/// if it ran now.
pub struct Request {
    pub path: Seq<char>,
    pub produced: Seq<ValueView>,
}

/// How an import went: whether the file's code ran, and the values handed on.
pub struct Outcome {
    pub executed: bool,
    pub values: Seq<ValueView>,
}

/// The cache after the import `request`.
pub open spec fn cache_after(cache: Seq<ImportView>, request: Request) -> Seq<ImportView> {
    match recorded(cache, request.path) {
        Some(_) => cache,
        None => cache.push(ImportView { path: request.path, values: request.produced }),
    }
}

/// How the import `request` goes: a file that has run is not run again, and
/// what its one run left is handed on.
pub open spec fn outcome_of(cache: Seq<ImportView>, request: Request) -> Outcome {
    match recorded(cache, request.path) {
        Some(values) => Outcome { executed: false, values },
        None => Outcome { executed: true, values: request.produced },
    }
}

/// The cache after the imports `requests`, made in their order from the
/// cache `cache` on.
pub open spec fn cache_after_all(cache: Seq<ImportView>, requests: Seq<Request>) -> Seq<ImportView>
    decreases requests.len(),
{
    if requests.len() == 0 {
        cache
    } else {
        cache_after(cache_after_all(cache, requests.drop_last()), requests.last())
    }
}

/// How the import number `i` of `requests` goes, when they are made in their
/// order from the cache `cache` on.
pub open spec fn outcome_at(cache: Seq<ImportView>, requests: Seq<Request>, i: int) -> Outcome
    recommends
        0 <= i < requests.len(),
{
    outcome_of(cache_after_all(cache, requests.take(i)), requests[i])
}

/// An import leaves what was recorded as it is, and the file that it asked
/// for recorded.
pub proof fn lemma_cache_after(cache: Seq<ImportView>, request: Request, path: Seq<char>)
    ensures
        recorded(cache, path) is Some ==> recorded(cache_after(cache, request), path) == recorded(
            cache,
            path,
        ),
        recorded(cache_after(cache, request), request.path) == Some(
            outcome_of(cache, request).values,
        ),
{
    let after = cache_after(cache, request);
    if recorded(cache, request.path) is None {
        assert(after.drop_last() =~= cache);
    }
}

/// What was recorded stays recorded through any number of imports.
pub proof fn lemma_cache_keeps(cache: Seq<ImportView>, requests: Seq<Request>, path: Seq<char>)
    requires
        recorded(cache, path) is Some,
    ensures
        recorded(cache_after_all(cache, requests), path) == recorded(cache, path),
    decreases requests.len(),
{
    if requests.len() > 0 {
        lemma_cache_keeps(cache, requests.drop_last(), path);
        lemma_cache_after(cache_after_all(cache, requests.drop_last()), requests.last(), path);
    }
}

proof fn lemma_cache_split(cache: Seq<ImportView>, requests: Seq<Request>, i: int)
    requires
        0 <= i <= requests.len(),
    ensures
        cache_after_all(cache, requests) == cache_after_all(
            cache_after_all(cache, requests.take(i)),
            requests.skip(i),
        ),
    decreases requests.len() - i,
{
    if i == requests.len() {
        assert(requests.take(i) =~= requests);
        assert(requests.skip(i).len() == 0);
    } else {
        let front = requests.drop_last();
        lemma_cache_split(cache, front, i);
        assert(front.take(i) =~= requests.take(i));
        assert(requests.skip(i).drop_last() =~= front.skip(i));
        assert(requests.skip(i).last() == requests.last());
    }
}

/// A file is run once: of two imports of one path in one run, the later one
/// does not run the file's code, and hands on the same values as the earlier one.
pub proof fn lemma_import_once(cache: Seq<ImportView>, requests: Seq<Request>, i: int, j: int)
    requires
        0 <= i < j < requests.len(),
        requests[i].path == requests[j].path,
    ensures
        !outcome_at(cache, requests, j).executed,
        outcome_at(cache, requests, j).values == outcome_at(cache, requests, i).values,
{
    let path = requests[i].path;
    let before = cache_after_all(cache, requests.take(i));
    let with_i = cache_after_all(cache, requests.take(i + 1));
    assert(requests.take(i + 1).drop_last() =~= requests.take(i));
    assert(requests.take(i + 1).last() == requests[i]);
    lemma_cache_after(before, requests[i], path);
    let upto_j = requests.take(j);
    lemma_cache_split(cache, upto_j, i + 1);
    assert(upto_j.take(i + 1) =~= requests.take(i + 1));
    lemma_cache_keeps(with_i, upto_j.skip(i + 1), path);
}

impl View for ImportCache {
    type V = Seq<ImportView>;

    closed spec fn view(&self) -> Seq<ImportView> {
        Seq::new(
            self.paths@.len(),
            |i: int| ImportView { path: self.paths@[i]@, values: value_views(self.values@[i]@) },
        )
    }
}

fn copy_values(values: &Vec<Value>) -> (r: Vec<Value>)
    ensures
        value_views(r@) == value_views(values@),
{
    let mut r: Vec<Value> = Vec::new();
    let mut i: usize = 0;
    while i < values.len()
        invariant
            i <= values.len(),
            r@.len() == i,
            forall|k: int| 0 <= k < i ==> (#[trigger] r@[k])@ == values@[k]@,
        decreases values.len() - i,
    {
        r.push(values[i].copy());
        i = i + 1;
    }
    assert(value_views(r@) =~= value_views(values@));
    r
}

impl ImportCache {
    /// Every path has its values.
    pub closed spec fn wf(&self) -> bool {
        self.paths@.len() == self.values@.len()
    }

    /// The cache of a run that has imported nothing yet.
    pub fn new() -> (r: ImportCache)
        ensures
            r.wf(),
            r@.len() == 0,
    {
        ImportCache { paths: Vec::new(), values: Vec::new() }
    }

    /// What the file with the canonical path `path` left on the stack when
    /// it ran, if it has run in this run.
    pub fn lookup(&self, path: &str) -> (r: Option<Vec<Value>>)
        requires
            self.wf(),
        ensures
            match r {
                Some(values) => recorded(self@, path@) == Some(value_views(values@)),
                None => recorded(self@, path@) is None,
            },
    {
        let wanted = String::from_str(path);
        let mut i: usize = 0;
        assert(self@.take(0).len() == 0);
        while i < self.paths.len()
            invariant
                i <= self.paths.len(),
                self.wf(),
                wanted@ == path@,
                recorded(self@.take(i as int), path@) is None,
            decreases self.paths.len() - i,
        {
            proof {
                let upto = self@.take(i + 1);
                assert(upto.drop_last() =~= self@.take(i as int));
                assert(upto.last() == self@[i as int]);
            }
            if self.paths[i] == wanted {
                let values = copy_values(&self.values[i]);
                proof {
                    lemma_cache_keeps_longer(self@, i + 1, path@);
                }
                return Some(values);
            }
            i = i + 1;
        }
        assert(self@.take(i as int) =~= self@);
        None
    }

    /// Records that the code of the file with the canonical path `path` has
    /// run and left `values` on the stack. Where the file is already on record nothing happens: the
    /// first run is the one that counts.
    pub fn record(&mut self, path: &str, values: Vec<Value>)
        requires
            old(self).wf(),
        ensures
            final(self).wf(),
            final(self)@ == cache_after(
                old(self)@,
                Request { path: path@, produced: value_views(values@) },
            ),
    {
        match self.lookup(path) {
            Some(_) => {},
            None => {
                self.paths.push(String::from_str(path));
                self.values.push(values);
                assert(self@ =~= old(self)@.push(
                    ImportView { path: path@, values: value_views(values@) },
                ));
            },
        }
    }
}

proof fn lemma_cache_keeps_longer(cache: Seq<ImportView>, i: int, path: Seq<char>)
    requires
        0 <= i <= cache.len(),
        recorded(cache.take(i), path) is Some,
    ensures
        recorded(cache, path) == recorded(cache.take(i), path),
    decreases cache.len() - i,
{
    if i < cache.len() {
        assert(cache.take(i + 1).drop_last() =~= cache.take(i));
        lemma_cache_keeps_longer(cache, i + 1, path);
    } else {
        assert(cache.take(i) =~= cache);
    }
}

} // verus!
