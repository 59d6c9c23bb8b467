//! Finding the source files that the command-line tools work on.
//!
//! Reading a directory is the caller's business. What this module decides on
//! are plain descriptions of the entries that the caller found.

use vstd::prelude::*;
use vstd::string::StringExecFns;
use crate::seqs::lemma_filter_push;

verus! {

/// A file as the tools see it: its path, and the extension of its file name
/// (without the dot) where it has one.
#[derive(Clone, Debug, PartialEq, Eq)]
pub struct FileEntry {
    pub path: String,
    pub extension: Option<String>,
}

/// What a file watcher reported: whether files were modified (rather than
/// created, removed or only read), and which ones.
#[derive(Clone, Debug, PartialEq, Eq)]
pub struct FileEvent {
    pub modified: bool,
    pub paths: Vec<FileEntry>,
}

impl FileEntry {
    /// A source file is one whose extension is exactly `ua`.
    pub open spec fn is_source(&self) -> bool {
        match self.extension {
            Some(e) => e@ == "ua"@,
            None => false,
        }
    }

    /// Whether this entry is a source file.
    pub fn has_source_extension(&self) -> (r: bool)
        ensures
            r == self.is_source(),
    {
        match &self.extension {
            Some(e) => {
                let ua = String::from_str("ua");
                *e == ua
            },
            None => false,
        }
    }
}

/// `entries[i]` is a source file and no entry before it is one.
pub open spec fn is_first_source(entries: Seq<FileEntry>, i: int) -> bool {
    &&& 0 <= i < entries.len()
    &&& entries[i].is_source()
    &&& forall|j: int| 0 <= j < i ==> !(#[trigger] entries[j]).is_source()
}

/// The paths of the source files among `entries`, in the order of the entries.
pub open spec fn source_paths(entries: Seq<FileEntry>) -> Seq<Seq<char>> {
    entries.filter(|e: FileEntry| e.is_source()).map_values(|e: FileEntry| e.path@)
}

/// The texts of a sequence of strings.
pub open spec fn texts(names: Seq<String>) -> Seq<Seq<char>> {
    names.map_values(|s: String| s@)
}

/// The `j`-th path of the `i`-th event is a modified source file.
pub open spec fn is_change(events: Seq<FileEvent>, i: int, j: int) -> bool {
    &&& 0 <= i < events.len()
    &&& events[i].modified
    &&& 0 <= j < events[i].paths@.len()
    &&& events[i].paths@[j].is_source()
}

/// `(i, j)` is the last modified source file that `events` report.
pub open spec fn is_last_change(events: Seq<FileEvent>, i: int, j: int) -> bool {
    &&& is_change(events, i, j)
    &&& forall|k: int, l: int| #[trigger]
        is_change(events, k, l) ==> k < i || (k == i && l <= j)
}

/// The file that a command without a path works on.
///
/// `src.main.ua` where it exists, else `main.ua` where that exists, else the
/// first source file among `entries`, else nothing.
pub fn working_file_path(src_main_exists: bool, main_exists: bool, entries: &Vec<FileEntry>) -> (r:
    Option<String>)
    ensures
        src_main_exists ==> r is Some && r.unwrap()@ == "src.main.ua"@,
        !src_main_exists && main_exists ==> r is Some && r.unwrap()@ == "main.ua"@,
        !src_main_exists && !main_exists ==> match r {
            Some(p) => exists|i: int| #[trigger]
                is_first_source(entries@, i) && p@ == entries@[i].path@,
            None => forall|i: int|
                0 <= i < entries@.len() ==> !(#[trigger] entries@[i]).is_source(),
        },
{
    if src_main_exists {
        return Some(String::from_str("src.main.ua"));
    }
    if main_exists {
        return Some(String::from_str("main.ua"));
    }
    let mut i: usize = 0;
    while i < entries.len()
        invariant
            !src_main_exists,
            !main_exists,
            i <= entries.len(),
            forall|j: int| 0 <= j < i ==> !(#[trigger] entries@[j]).is_source(),
        decreases entries.len() - i,
    {
        if entries[i].has_source_extension() {
            assert(is_first_source(entries@, i as int));
            return Some(entries[i].path.clone());
        }
        i = i + 1;
    }
    None
}

/// The source files among `entries`, in their order.
pub fn uiua_files(entries: &Vec<FileEntry>) -> (r: Vec<String>)
    ensures
        texts(r@) == source_paths(entries@),
{
    let mut out: Vec<String> = Vec::new();
    let mut i: usize = 0;
    assert(entries@.take(0) =~= Seq::<FileEntry>::empty());
    assert(texts(out@) =~= source_paths(entries@.take(0))) by {
        reveal(Seq::filter);
    }
    while i < entries.len()
        invariant
            i <= entries.len(),
            texts(out@) == source_paths(entries@.take(i as int)),
        decreases entries.len() - i,
    {
        let ghost before = out@;
        proof {
            assert(entries@.take(i + 1) =~= entries@.take(i as int).push(entries@[i as int]));
            lemma_filter_push(
                entries@.take(i as int),
                entries@[i as int],
                |e: FileEntry| e.is_source(),
            );
        }
        if entries[i].has_source_extension() {
            out.push(entries[i].path.clone());
            assert(texts(out@) =~= texts(before).push(entries@[i as int].path@));
            assert(source_paths(entries@.take(i + 1)) =~= source_paths(
                entries@.take(i as int),
            ).push(entries@[i as int].path@));
        }
        i = i + 1;
    }
    assert(entries@.take(i as int) =~= entries@);
    out
}

/// The source file to run again after `events`: the last one that they report
/// as modified, if they report any.
pub fn changed_source(events: &Vec<FileEvent>) -> (r: Option<String>)
    ensures
        match r {
            Some(p) => exists|i: int, j: int| #[trigger]
                is_last_change(events@, i, j) && p@ == events@[i].paths@[j].path@,
            None => forall|i: int, j: int| !#[trigger] is_change(events@, i, j),
        },
{
    let mut last: Option<(usize, usize)> = None;
    let mut i: usize = 0;
    while i < events.len()
        invariant
            i <= events.len(),
            match last {
                Some((a, b)) => {
                    &&& a < i
                    &&& is_change(events@, a as int, b as int)
                    &&& forall|k: int, l: int| #[trigger]
                        is_change(events@, k, l) && k < i ==> k < a || (k == a && l <= b)
                },
                None => forall|k: int, l: int| #[trigger] is_change(events@, k, l) ==> k >= i,
            },
        decreases events.len() - i,
    {
        if events[i].modified {
            let paths = &events[i].paths;
            let mut j: usize = 0;
            while j < paths.len()
                invariant
                    i < events.len(),
                    j <= paths.len(),
                    paths == &events@[i as int].paths,
                    events@[i as int].modified,
                    match last {
                        Some((a, b)) => {
                            &&& a <= i
                            &&& is_change(events@, a as int, b as int)
                            &&& forall|k: int, l: int| #[trigger]
                                is_change(events@, k, l) && (k < i || (k == i && l < j)) ==> k < a
                                    || (k == a && l <= b)
                        },
                        None => forall|k: int, l: int| #[trigger]
                            is_change(events@, k, l) ==> k > i || (k == i && l >= j),
                    },
                decreases paths.len() - j,
            {
                if paths[j].has_source_extension() {
                    last = Some((i, j));
                }
                j = j + 1;
            }
        }
        i = i + 1;
    }
    match last {
        Some((a, b)) => {
            assert(is_last_change(events@, a as int, b as int));
            Some(events[a].paths[b].path.clone())
        },
        None => None,
    }
}

} // verus!
