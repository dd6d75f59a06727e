//! The change detector: one pass over a directory tree that records each
//! file's modification time and reports whether anything is new or changed.
//!
//! The tree is handed over as plain values: each directory with its listing
//! as read, each file with its name, its full path and its modification time.
use vstd::prelude::*;
use crate::file_times::FileTimes;
use crate::filter::{is_excluded_dir, is_excluded_file, skips_dir, skips_file};

verus! {

/// A regular file of a listing.
#[derive(Clone, Debug)]
pub struct FileInfo {
    /// The full path, which is the key under which the file is recorded.
    pub path: String,
    /// The bare name, which the ignore rules look at.
    pub name: String,
    /// Modification time in whole seconds since the epoch; `None` where the
    /// platform does not report one, and such a file is passed over.
    pub mtime: Option<u64>,
}

/// A directory of a listing.
#[derive(Debug)]
pub struct Dir {
    pub path: String,
    pub name: String,
    /// The entries of the directory, or `None` where it was not read: it
    /// could not be, or it is excluded and there was no need.
    pub contents: Option<Vec<Entry>>,
}

/// One entry of a directory listing.
#[derive(Debug)]
pub enum Entry {
    Dir(Dir),
    File(FileInfo),
    /// Anything that is neither a directory nor a regular file.
    Other,
}

/// A directory on the way could not be read; the scan stopped there.
#[derive(Clone, Debug, PartialEq, Eq)]
pub struct ScanError {
    pub path: String,
}

/// What looking at one file does: whether it is news, and the table after.
pub open spec fn file_step(
    file: FileInfo,
    ignore_files: Seq<String>,
    ignore_exts: Seq<String>,
    m: Map<Seq<char>, u64>,
) -> (bool, Map<Seq<char>, u64>) {
    if skips_file(ignore_files, ignore_exts, file.name@) || file.mtime is None {
        (false, m)
    } else {
        let t = file.mtime->0;
        (!(m.contains_key(file.path@) && m[file.path@] == t), m.insert(file.path@, t))
    }
}

/// `c` or'ed into the outcome of what follows.
pub open spec fn or_into(c: bool, s: (Result<bool, Seq<char>>, Map<Seq<char>, u64>)) -> (
    Result<bool, Seq<char>>,
    Map<Seq<char>, u64>,
) {
    (
        match s.0 {
            Ok(b) => Ok(c || b),
            Err(p) => Err(p),
        },
        s.1,
    )
}

/// The scan of the entries `es` in order, starting from the table `m`: its
/// outcome (a change seen, or the path of the first unreadable directory met)
/// and the table after it. An error ends the scan; what was recorded before
/// it stays recorded.
pub open spec fn scan_list(
    es: Seq<Entry>,
    ignore_dirs: Seq<String>,
    ignore_files: Seq<String>,
    ignore_exts: Seq<String>,
    m: Map<Seq<char>, u64>,
) -> (Result<bool, Seq<char>>, Map<Seq<char>, u64>)
    decreases es,
    via scan_list_decreases
{
    if es.len() == 0 {
        (Ok(false), m)
    } else {
        let head = match es[0] {
            Entry::Dir(dir) => if skips_dir(ignore_dirs, dir.name@) {
                (Ok(false), m)
            } else {
                match dir.contents {
                    Some(v) => scan_list(v@, ignore_dirs, ignore_files, ignore_exts, m),
                    None => (Err(dir.path@), m),
                }
            },
            Entry::File(file) => {
                let step = file_step(file, ignore_files, ignore_exts, m);
                (Ok(step.0), step.1)
            },
            Entry::Other => (Ok(false), m),
        };
        match head.0 {
            Err(p) => (Err(p), head.1),
            Ok(c) => or_into(
                c,
                scan_list(es.subrange(1, es.len() as int), ignore_dirs, ignore_files, ignore_exts, head.1),
            ),
        }
    }
}

#[via_fn]
proof fn scan_list_decreases(
    es: Seq<Entry>,
    ignore_dirs: Seq<String>,
    ignore_files: Seq<String>,
    ignore_exts: Seq<String>,
    m: Map<Seq<char>, u64>,
) {
    if es.len() > 0 {
        assert(decreases_to!(es => es[0]));
        if let Entry::Dir(dir) = es[0] {
            if let Some(v) = dir.contents {
                lemma_contents_smaller(es, 0, v);
            }
        }
        assert(decreases_to!(es => es.subrange(1, es.len() as int)));
    }
}

/// The listing of a directory entry of `es` is smaller than `es`.
pub(crate) proof fn lemma_contents_smaller(es: Seq<Entry>, i: int, v: Vec<Entry>)
    requires
        0 <= i < es.len(),
        es[i] is Dir,
        es[i]->Dir_0.contents == Some(v),
    ensures
        decreases_to!(es => v@),
{
    let dir = es[i]->Dir_0;
    assert(decreases_to!(es => es[i]));
    assert(decreases_to!(es[i] => dir));
    assert(decreases_to!(dir => dir.contents));
    assert(decreases_to!(dir.contents => dir.contents->Some_0));
    assert(decreases_to!(v => v@));
}

/// The scan of the tree under `root`, whatever its own name.
pub open spec fn scan_root(
    root: Dir,
    ignore_dirs: Seq<String>,
    ignore_files: Seq<String>,
    ignore_exts: Seq<String>,
    m: Map<Seq<char>, u64>,
) -> (Result<bool, Seq<char>>, Map<Seq<char>, u64>) {
    match root.contents {
        Some(v) => scan_list(v@, ignore_dirs, ignore_files, ignore_exts, m),
        None => (Err(root.path@), m),
    }
}

/// `r` is the outcome `s` of the model.
pub open spec fn reports(r: Result<bool, ScanError>, s: Result<bool, Seq<char>>) -> bool {
    match r {
        Ok(c) => s == Ok::<bool, Seq<char>>(c),
        Err(e) => s == Err::<bool, Seq<char>>(e.path@),
    }
}

/// Scans the entries `es` and what lies below them.
fn scan_entries(
    es: &Vec<Entry>,
    ignore_dirs: &Vec<String>,
    ignore_files: &Vec<String>,
    ignore_exts: &Vec<String>,
    files: &mut FileTimes,
) -> (r: Result<bool, ScanError>)
    requires
        old(files).wf(),
    ensures
        final(files).wf(),
        reports(r, scan_list(es@, ignore_dirs@, ignore_files@, ignore_exts@, old(files)@).0),
        final(files)@ == scan_list(es@, ignore_dirs@, ignore_files@, ignore_exts@, old(files)@).1,
    decreases es@,
{
    let ghost whole = scan_list(es@, ignore_dirs@, ignore_files@, ignore_exts@, old(files)@);
    let mut changed = false;
    let mut i: usize = 0;
    proof {
        assert(es@.subrange(0, es@.len() as int) =~= es@);
    }
    while i < es.len()
        invariant
            0 <= i <= es@.len(),
            files.wf(),
            whole == scan_list(es@, ignore_dirs@, ignore_files@, ignore_exts@, old(files)@),
            whole == or_into(
                changed,
                scan_list(es@.subrange(i as int, es@.len() as int), ignore_dirs@, ignore_files@, ignore_exts@, files@),
            ),
        decreases es.len() - i,
    {
        let ghost rest = es@.subrange(i as int, es@.len() as int);
        proof {
            assert(rest[0] == es@[i as int]);
            assert(rest.subrange(1, rest.len() as int) =~= es@.subrange(i + 1, es@.len() as int));
        }
        match &es[i] {
            Entry::Dir(dir) => {
                if !is_excluded_dir(ignore_dirs, &dir.name) {
                    match &dir.contents {
                        Some(v) => {
                            proof {
                                lemma_contents_smaller(es@, i as int, *v);
                            }
                            match scan_entries(v, ignore_dirs, ignore_files, ignore_exts, files) {
                                Ok(c) => {
                                    changed = changed || c;
                                },
                                Err(e) => {
                                    return Err(e);
                                },
                            }
                        },
                        None => {
                            return Err(ScanError { path: dir.path.clone() });
                        },
                    }
                }
            },
            Entry::File(file) => {
                if !is_excluded_file(ignore_files, ignore_exts, &file.name) {
                    match file.mtime {
                        Some(t) => {
                            if files.record(&file.path, t) {
                                changed = true;
                            }
                        },
                        None => {},
                    }
                }
            },
            Entry::Other => {},
        }
        i = i + 1;
    }
    proof {
        assert(es@.subrange(i as int, es@.len() as int).len() == 0);
    }
    Ok(changed)
}

/// Scans the tree under `root` once against the table `files`.
///
/// Directories named in `ignore_dirs` are not entered; files whose bare name
/// is in `ignore_files`, or whose extension is in `ignore_exts`, are passed
/// over. Every other file is recorded with its modification time, and counts
/// as a change when it was not recorded yet or was recorded with another
/// time. Returns whether any change was seen, or the first directory on the
/// way (the root included) that could not be read. Paths are never removed.
pub fn watch(
    root: &Dir,
    ignore_dirs: &Vec<String>,
    ignore_files: &Vec<String>,
    ignore_exts: &Vec<String>,
    files: &mut FileTimes,
) -> (r: Result<bool, ScanError>)
    requires
        old(files).wf(),
    ensures
        final(files).wf(),
        reports(r, scan_root(*root, ignore_dirs@, ignore_files@, ignore_exts@, old(files)@).0),
        final(files)@ == scan_root(*root, ignore_dirs@, ignore_files@, ignore_exts@, old(files)@).1,
{
    match &root.contents {
        Some(v) => scan_entries(v, ignore_dirs, ignore_files, ignore_exts, files),
        None => Err(ScanError { path: root.path.clone() }),
    }
}

} // verus!
