//! What the scan of `watcher` amounts to, proved of its model `scan_list`.
use vstd::prelude::*;
use crate::filter::{skips_dir, skips_file};
use crate::watcher::{lemma_contents_smaller, or_into, scan_list, scan_root, Dir, Entry, FileInfo};

verus! {

/// The scan of `es` followed by the scan of `b`, from where it left off,
/// unless it stopped on an error.
pub open spec fn then_scan(
    s: (Result<bool, Seq<char>>, Map<Seq<char>, u64>),
    b: Seq<Entry>,
    ignore_dirs: Seq<String>,
    ignore_files: Seq<String>,
    ignore_exts: Seq<String>,
) -> (Result<bool, Seq<char>>, Map<Seq<char>, u64>) {
    match s.0 {
        Err(p) => s,
        Ok(c) => or_into(c, scan_list(b, ignore_dirs, ignore_files, ignore_exts, s.1)),
    }
}

proof fn lemma_or_into_twice(c1: bool, c2: bool, s: (Result<bool, Seq<char>>, Map<Seq<char>, u64>))
    ensures
        or_into(c1, or_into(c2, s)) == or_into(c1 || c2, s),
        or_into(false, s) == s,
{
    match s.0 {
        Ok(b) => {},
        Err(p) => {},
    }
}

/// Scanning a listing made of two parts is scanning the first part, then
/// the second.
pub proof fn lemma_scan_append(
    a: Seq<Entry>,
    b: Seq<Entry>,
    ignore_dirs: Seq<String>,
    ignore_files: Seq<String>,
    ignore_exts: Seq<String>,
    m: Map<Seq<char>, u64>,
)
    ensures
        scan_list(a + b, ignore_dirs, ignore_files, ignore_exts, m) == then_scan(
            scan_list(a, ignore_dirs, ignore_files, ignore_exts, m),
            b,
            ignore_dirs,
            ignore_files,
            ignore_exts,
        ),
    decreases a.len(),
{
    if a.len() == 0 {
        assert(a + b =~= b);
        lemma_or_into_twice(false, false, scan_list(b, ignore_dirs, ignore_files, ignore_exts, m));
    } else {
        let ab = a + b;
        let a1 = a.subrange(1, a.len() as int);
        assert(ab[0] == a[0]);
        assert(ab.subrange(1, ab.len() as int) =~= a1 + b);
        // both scans look at the same first entry, then go on with the rest
        let head = match a[0] {
            Entry::Dir(dir) => if skips_dir(ignore_dirs, dir.name@) {
                (Ok(false), m)
            } else {
                match dir.contents {
                    Some(v) => scan_list(v@, ignore_dirs, ignore_files, ignore_exts, m),
                    None => (Err(dir.path@), m),
                }
            },
            Entry::File(file) => {
                let step = crate::watcher::file_step(file, ignore_files, ignore_exts, m);
                (Ok(step.0), step.1)
            },
            Entry::Other => (Ok(false), m),
        };
        match head.0 {
            Err(p) => {},
            Ok(c) => {
                lemma_scan_append(a1, b, ignore_dirs, ignore_files, ignore_exts, head.1);
                let s1 = scan_list(a1, ignore_dirs, ignore_files, ignore_exts, head.1);
                match s1.0 {
                    Err(p) => {},
                    Ok(c1) => {
                        lemma_or_into_twice(
                            c,
                            c1,
                            scan_list(b, ignore_dirs, ignore_files, ignore_exts, s1.1),
                        );
                    },
                }
            },
        }
    }
}

/// Whether the scan passes over the entry `e` without looking further: a
/// directory it does not enter, a file it does not record, or anything else
/// that is neither.
pub open spec fn passed_over(
    e: Entry,
    ignore_dirs: Seq<String>,
    ignore_files: Seq<String>,
    ignore_exts: Seq<String>,
) -> bool {
    match e {
        Entry::Dir(dir) => skips_dir(ignore_dirs, dir.name@),
        Entry::File(file) => skips_file(ignore_files, ignore_exts, file.name@) || file.mtime is None,
        Entry::Other => true,
    }
}

/// An entry the scan passes over might as well not be there.
pub proof fn lemma_passed_over(
    es: Seq<Entry>,
    k: int,
    ignore_dirs: Seq<String>,
    ignore_files: Seq<String>,
    ignore_exts: Seq<String>,
    m: Map<Seq<char>, u64>,
)
    requires
        0 <= k < es.len(),
        passed_over(es[k], ignore_dirs, ignore_files, ignore_exts),
    ensures
        scan_list(es, ignore_dirs, ignore_files, ignore_exts, m) == scan_list(
            es.remove(k),
            ignore_dirs,
            ignore_files,
            ignore_exts,
            m,
        ),
{
    let a = es.subrange(0, k);
    let e = seq![es[k]];
    let b = es.subrange(k + 1, es.len() as int);
    assert(es =~= a + (e + b));
    assert(es.remove(k) =~= a + b);
    lemma_scan_append(a, e + b, ignore_dirs, ignore_files, ignore_exts, m);
    lemma_scan_append(a, b, ignore_dirs, ignore_files, ignore_exts, m);
    let s = scan_list(a, ignore_dirs, ignore_files, ignore_exts, m);
    match s.0 {
        Err(p) => {},
        Ok(c) => {
            let eb = e + b;
            assert(eb[0] == es[k]);
            assert(eb.subrange(1, eb.len() as int) =~= b);
            lemma_or_into_twice(false, false, scan_list(b, ignore_dirs, ignore_files, ignore_exts, s.1));
        },
    }
}

/// Nothing beneath a directory whose name is excluded is ever recorded or
/// reported, whatever happens there: the scan is the same with that
/// directory left out of the listing, and the same whatever it holds.
pub proof fn lemma_excluded_dir_ignored(
    es: Seq<Entry>,
    k: int,
    other: Option<Vec<Entry>>,
    ignore_dirs: Seq<String>,
    ignore_files: Seq<String>,
    ignore_exts: Seq<String>,
    m: Map<Seq<char>, u64>,
)
    requires
        0 <= k < es.len(),
        es[k] is Dir,
        skips_dir(ignore_dirs, es[k]->Dir_0.name@),
    ensures
        scan_list(es, ignore_dirs, ignore_files, ignore_exts, m) == scan_list(
            es.remove(k),
            ignore_dirs,
            ignore_files,
            ignore_exts,
            m,
        ),
        scan_list(
            es.update(k, Entry::Dir(Dir { contents: other, ..es[k]->Dir_0 })),
            ignore_dirs,
            ignore_files,
            ignore_exts,
            m,
        ) == scan_list(es, ignore_dirs, ignore_files, ignore_exts, m),
{
    lemma_passed_over(es, k, ignore_dirs, ignore_files, ignore_exts, m);
    let es2 = es.update(k, Entry::Dir(Dir { contents: other, ..es[k]->Dir_0 }));
    lemma_passed_over(es2, k, ignore_dirs, ignore_files, ignore_exts, m);
    assert(es2.remove(k) =~= es.remove(k));
}

/// A file whose bare name or extension is excluded is never recorded nor
/// reported: the scan is the same with the file left out of the listing.
pub proof fn lemma_excluded_file_ignored(
    es: Seq<Entry>,
    k: int,
    ignore_dirs: Seq<String>,
    ignore_files: Seq<String>,
    ignore_exts: Seq<String>,
    m: Map<Seq<char>, u64>,
)
    requires
        0 <= k < es.len(),
        es[k] is File,
        skips_file(ignore_files, ignore_exts, es[k]->File_0.name@),
    ensures
        scan_list(es, ignore_dirs, ignore_files, ignore_exts, m) == scan_list(
            es.remove(k),
            ignore_dirs,
            ignore_files,
            ignore_exts,
            m,
        ),
{
    lemma_passed_over(es, k, ignore_dirs, ignore_files, ignore_exts, m);
}

/// Directories are scanned recursively: a directory the scan enters counts
/// exactly as if its entries stood in its place in the listing above.
pub proof fn lemma_nested_like_top_level(
    es: Seq<Entry>,
    k: int,
    ignore_dirs: Seq<String>,
    ignore_files: Seq<String>,
    ignore_exts: Seq<String>,
    m: Map<Seq<char>, u64>,
)
    requires
        0 <= k < es.len(),
        es[k] is Dir,
        !skips_dir(ignore_dirs, es[k]->Dir_0.name@),
        es[k]->Dir_0.contents is Some,
    ensures
        scan_list(es, ignore_dirs, ignore_files, ignore_exts, m) == scan_list(
            es.subrange(0, k) + es[k]->Dir_0.contents->0@ + es.subrange(k + 1, es.len() as int),
            ignore_dirs,
            ignore_files,
            ignore_exts,
            m,
        ),
{
    let a = es.subrange(0, k);
    let v = es[k]->Dir_0.contents->0@;
    let e = seq![es[k]];
    let b = es.subrange(k + 1, es.len() as int);
    assert(es =~= a + (e + b));
    assert(a + v + b =~= a + (v + b));
    lemma_scan_append(a, e + b, ignore_dirs, ignore_files, ignore_exts, m);
    lemma_scan_append(a, v + b, ignore_dirs, ignore_files, ignore_exts, m);
    let s = scan_list(a, ignore_dirs, ignore_files, ignore_exts, m);
    match s.0 {
        Err(p) => {},
        Ok(c) => {
            let eb = e + b;
            assert(eb[0] == es[k]);
            assert(eb.subrange(1, eb.len() as int) =~= b);
            lemma_scan_append(v, b, ignore_dirs, ignore_files, ignore_exts, s.1);
        },
    }
}

/// A directory with no entries at all: no change, and the table untouched.
pub proof fn lemma_empty_dir(
    root: Dir,
    ignore_dirs: Seq<String>,
    ignore_files: Seq<String>,
    ignore_exts: Seq<String>,
    m: Map<Seq<char>, u64>,
)
    requires
        root.contents is Some,
        root.contents->0@.len() == 0,
    ensures
        scan_root(root, ignore_dirs, ignore_files, ignore_exts, m) == (Ok::<bool, Seq<char>>(false), m),
{
}

/// The files the scan records, in the order it meets them: each file it does
/// not pass over, beneath the directories it enters. A directory that cannot
/// be read contributes none.
pub open spec fn recorded_files(
    es: Seq<Entry>,
    ignore_dirs: Seq<String>,
    ignore_files: Seq<String>,
    ignore_exts: Seq<String>,
) -> Seq<FileInfo>
    decreases es,
    via recorded_files_decreases
{
    if es.len() == 0 {
        Seq::empty()
    } else {
        let head = match es[0] {
            Entry::Dir(dir) => if skips_dir(ignore_dirs, dir.name@) {
                Seq::empty()
            } else {
                match dir.contents {
                    Some(v) => recorded_files(v@, ignore_dirs, ignore_files, ignore_exts),
                    None => Seq::empty(),
                }
            },
            Entry::File(file) => if skips_file(ignore_files, ignore_exts, file.name@) || file.mtime is None {
                Seq::empty()
            } else {
                seq![file]
            },
            Entry::Other => Seq::empty(),
        };
        head + recorded_files(es.subrange(1, es.len() as int), ignore_dirs, ignore_files, ignore_exts)
    }
}

#[via_fn]
proof fn recorded_files_decreases(
    es: Seq<Entry>,
    ignore_dirs: Seq<String>,
    ignore_files: Seq<String>,
    ignore_exts: Seq<String>,
) {
    if es.len() > 0 {
        if let Entry::Dir(dir) = es[0] {
            if let Some(v) = dir.contents {
                lemma_contents_smaller(es, 0, v);
            }
        }
        assert(decreases_to!(es => es.subrange(1, es.len() as int)));
    }
}

/// Whether every directory the scan enters beneath `es` can be read.
pub open spec fn readable(es: Seq<Entry>, ignore_dirs: Seq<String>) -> bool
    decreases es,
    via readable_decreases
{
    if es.len() == 0 {
        true
    } else {
        let head = match es[0] {
            Entry::Dir(dir) => skips_dir(ignore_dirs, dir.name@) || match dir.contents {
                Some(v) => readable(v@, ignore_dirs),
                None => false,
            },
            _ => true,
        };
        head && readable(es.subrange(1, es.len() as int), ignore_dirs)
    }
}

#[via_fn]
proof fn readable_decreases(es: Seq<Entry>, ignore_dirs: Seq<String>) {
    if es.len() > 0 {
        if let Entry::Dir(dir) = es[0] {
            if let Some(v) = dir.contents {
                lemma_contents_smaller(es, 0, v);
            }
        }
        assert(decreases_to!(es => es.subrange(1, es.len() as int)));
    }
}

/// The table after recording each of `fs` in turn.
pub open spec fn record_all(fs: Seq<FileInfo>, m: Map<Seq<char>, u64>) -> Map<Seq<char>, u64>
    decreases fs.len(),
{
    if fs.len() == 0 {
        m
    } else {
        record_all(fs.subrange(1, fs.len() as int), m.insert(fs[0].path@, fs[0].mtime->0))
    }
}

/// Whether recording `file` in `m` is news: its path is not there yet, or is
/// there with another time.
pub open spec fn is_news(file: FileInfo, m: Map<Seq<char>, u64>) -> bool {
    !(m.contains_key(file.path@) && m[file.path@] == file.mtime->0)
}

/// Whether recording `fs` in turn, starting from `m`, meets any news.
pub open spec fn any_news(fs: Seq<FileInfo>, m: Map<Seq<char>, u64>) -> bool
    decreases fs.len(),
{
    if fs.len() == 0 {
        false
    } else {
        is_news(fs[0], m) || any_news(
            fs.subrange(1, fs.len() as int),
            m.insert(fs[0].path@, fs[0].mtime->0),
        )
    }
}

proof fn lemma_record_append(a: Seq<FileInfo>, b: Seq<FileInfo>, m: Map<Seq<char>, u64>)
    ensures
        record_all(a + b, m) == record_all(b, record_all(a, m)),
        any_news(a + b, m) == (any_news(a, m) || any_news(b, record_all(a, m))),
    decreases a.len(),
{
    if a.len() == 0 {
        assert(a + b =~= b);
    } else {
        let ab = a + b;
        assert(ab[0] == a[0]);
        assert(ab.subrange(1, ab.len() as int) =~= a.subrange(1, a.len() as int) + b);
        lemma_record_append(a.subrange(1, a.len() as int), b, m.insert(a[0].path@, a[0].mtime->0));
    }
}

/// Where every directory the scan enters can be read, the scan is the
/// recording of its files in turn, and it reports whether any was news.
pub proof fn lemma_scan_flat(
    es: Seq<Entry>,
    ignore_dirs: Seq<String>,
    ignore_files: Seq<String>,
    ignore_exts: Seq<String>,
    m: Map<Seq<char>, u64>,
)
    requires
        readable(es, ignore_dirs),
    ensures
        ({
            let fs = recorded_files(es, ignore_dirs, ignore_files, ignore_exts);
            scan_list(es, ignore_dirs, ignore_files, ignore_exts, m) == (
                Ok::<bool, Seq<char>>(any_news(fs, m)),
                record_all(fs, m),
            )
        }),
    decreases es,
{
    if es.len() > 0 {
        let rest = es.subrange(1, es.len() as int);
        let hv: Seq<FileInfo> = match es[0] {
            Entry::Dir(dir) => if skips_dir(ignore_dirs, dir.name@) {
                Seq::empty()
            } else {
                match dir.contents {
                    Some(v) => recorded_files(v@, ignore_dirs, ignore_files, ignore_exts),
                    None => Seq::empty(),
                }
            },
            Entry::File(file) => if skips_file(ignore_files, ignore_exts, file.name@) || file.mtime is None {
                Seq::empty()
            } else {
                seq![file]
            },
            Entry::Other => Seq::empty(),
        };
        match es[0] {
            Entry::Dir(dir) => {
                if !skips_dir(ignore_dirs, dir.name@) {
                    let v = dir.contents->0;
                    lemma_contents_smaller(es, 0, v);
                    lemma_scan_flat(v@, ignore_dirs, ignore_files, ignore_exts, m);
                } else {
                    assert(any_news(hv, m) == false);
                    assert(record_all(hv, m) == m);
                }
            },
            Entry::File(file) => {
                if !(skips_file(ignore_files, ignore_exts, file.name@) || file.mtime is None) {
                    let one = seq![file];
                    let m1 = m.insert(file.path@, file.mtime->0);
                    assert(one.subrange(1, one.len() as int) =~= Seq::<FileInfo>::empty());
                    assert(record_all(Seq::<FileInfo>::empty(), m1) == m1);
                    assert(any_news(Seq::<FileInfo>::empty(), m1) == false);
                    assert(record_all(one, m) == m1);
                    assert(any_news(one, m) == is_news(file, m));
                } else {
                    assert(any_news(hv, m) == false);
                    assert(record_all(hv, m) == m);
                }
            },
            Entry::Other => {
                assert(any_news(hv, m) == false);
                assert(record_all(hv, m) == m);
            },
        }
        assert(decreases_to!(es => rest));
        lemma_scan_flat(rest, ignore_dirs, ignore_files, ignore_exts, record_all(hv, m));
        lemma_record_append(hv, recorded_files(rest, ignore_dirs, ignore_files, ignore_exts), m);
    }
}

/// Files of `fs` with the same path have the same modification time, as
/// they do in any real tree, where no path occurs twice.
pub open spec fn consistent(fs: Seq<FileInfo>) -> bool {
    forall|i: int, j: int|
        0 <= i < fs.len() && 0 <= j < fs.len() && #[trigger] fs[i].path@ == #[trigger] fs[j].path@
            ==> fs[i].mtime->0 == fs[j].mtime->0
}

proof fn lemma_record_all_values(fs: Seq<FileInfo>, m: Map<Seq<char>, u64>)
    requires
        consistent(fs),
    ensures
        forall|i: int| 0 <= i < fs.len() ==> record_all(fs, m).contains_key(#[trigger] fs[i].path@)
            && record_all(fs, m)[fs[i].path@] == fs[i].mtime->0,
        forall|k: Seq<char>| (forall|i: int| 0 <= i < fs.len() ==> #[trigger] fs[i].path@ != k) ==> (
            #[trigger] record_all(fs, m).contains_key(k) == m.contains_key(k) && (m.contains_key(k) ==> record_all(fs, m)[k] == m[k])),
    decreases fs.len(),
{
    if fs.len() > 0 {
        let rest = fs.subrange(1, fs.len() as int);
        let m1 = m.insert(fs[0].path@, fs[0].mtime->0);
        assert forall|i: int, j: int|
            0 <= i < rest.len() && 0 <= j < rest.len() && #[trigger] rest[i].path@ == #[trigger] rest[j].path@
            implies rest[i].mtime->0 == rest[j].mtime->0 by {
            assert(fs[i + 1].path@ == fs[j + 1].path@);
        }
        lemma_record_all_values(rest, m1);
        let r = record_all(rest, m1);
        assert(record_all(fs, m) == r);
        assert forall|i: int| 0 <= i < fs.len() implies r.contains_key(#[trigger] fs[i].path@)
            && r[fs[i].path@] == fs[i].mtime->0 by {
            if i > 0 {
                assert(rest[i - 1] == fs[i]);
                assert(r.contains_key(rest[i - 1].path@));
            } else if exists|j: int| 0 <= j < rest.len() && rest[j].path@ == fs[0].path@ {
                let j = choose|j: int| 0 <= j < rest.len() && rest[j].path@ == fs[0].path@;
                assert(fs[j + 1].path@ == fs[0].path@);
                assert(r.contains_key(rest[j].path@));
            } else {
                let k = fs[0].path@;
                assert forall|j: int| 0 <= j < rest.len() implies #[trigger] rest[j].path@ != k by {}
                assert(r.contains_key(k) == m1.contains_key(k));
            }
        }
        assert forall|k: Seq<char>| (forall|i: int| 0 <= i < fs.len() ==> #[trigger] fs[i].path@ != k) implies (
            r.contains_key(k) == m.contains_key(k) && (m.contains_key(k) ==> r[k] == m[k])) by {
            assert(fs[0].path@ != k);
            assert forall|i: int| 0 <= i < rest.len() implies #[trigger] rest[i].path@ != k by {
                assert(fs[i + 1].path@ != k);
            }
            assert(r.contains_key(k) == m1.contains_key(k));
        }
    }
}

proof fn lemma_any_news_iff(fs: Seq<FileInfo>, m: Map<Seq<char>, u64>)
    requires
        consistent(fs),
    ensures
        any_news(fs, m) == exists|i: int| 0 <= i < fs.len() && is_news(#[trigger] fs[i], m),
    decreases fs.len(),
{
    if fs.len() > 0 {
        let rest = fs.subrange(1, fs.len() as int);
        let m1 = m.insert(fs[0].path@, fs[0].mtime->0);
        assert forall|i: int, j: int|
            0 <= i < rest.len() && 0 <= j < rest.len() && #[trigger] rest[i].path@ == #[trigger] rest[j].path@
            implies rest[i].mtime->0 == rest[j].mtime->0 by {
            assert(fs[i + 1].path@ == fs[j + 1].path@);
        }
        lemma_any_news_iff(rest, m1);
        if any_news(fs, m) {
            if !is_news(fs[0], m) {
                let j = choose|j: int| 0 <= j < rest.len() && is_news(#[trigger] rest[j], m1);
                assert(fs[j + 1] == rest[j]);
                if rest[j].path@ == fs[0].path@ {
                    assert(fs[j + 1].path@ == fs[0].path@);
                }
                assert(is_news(fs[j + 1], m));
            }
        } else {
            assert forall|i: int| 0 <= i < fs.len() implies !is_news(#[trigger] fs[i], m) by {
                if i > 0 {
                    assert(rest[i - 1] == fs[i]);
                    assert(!is_news(rest[i - 1], m1));
                    if fs[i].path@ == fs[0].path@ {
                        assert(fs[i].mtime->0 == fs[0].mtime->0);
                    }
                }
            }
        }
    }
}

/// The files the scan of the tree under `root` records.
pub open spec fn root_files(
    root: Dir,
    ignore_dirs: Seq<String>,
    ignore_files: Seq<String>,
    ignore_exts: Seq<String>,
) -> Seq<FileInfo> {
    recorded_files(root.contents->0@, ignore_dirs, ignore_files, ignore_exts)
}

/// Whether the root and every directory the scan enters can be read.
pub open spec fn root_readable(root: Dir, ignore_dirs: Seq<String>) -> bool {
    root.contents is Some && readable(root.contents->0@, ignore_dirs)
}

/// A scan of a readable tree records each file it does not pass over with
/// its modification time, leaves every other path as it was, and reports a
/// change exactly when some file was new or had another time.
pub proof fn lemma_scan_records(
    root: Dir,
    ignore_dirs: Seq<String>,
    ignore_files: Seq<String>,
    ignore_exts: Seq<String>,
    m: Map<Seq<char>, u64>,
)
    requires
        root_readable(root, ignore_dirs),
        consistent(root_files(root, ignore_dirs, ignore_files, ignore_exts)),
    ensures
        ({
            let fs = root_files(root, ignore_dirs, ignore_files, ignore_exts);
            let s = scan_root(root, ignore_dirs, ignore_files, ignore_exts, m);
            &&& s.0 == Ok::<bool, Seq<char>>(exists|i: int| 0 <= i < fs.len() && is_news(#[trigger] fs[i], m))
            &&& forall|i: int| 0 <= i < fs.len() ==> s.1.contains_key(#[trigger] fs[i].path@)
                && s.1[fs[i].path@] == fs[i].mtime->0
            &&& forall|k: Seq<char>| (forall|i: int| 0 <= i < fs.len() ==> #[trigger] fs[i].path@ != k)
                ==> (#[trigger] s.1.contains_key(k) == m.contains_key(k) && (m.contains_key(k) ==> s.1[k] == m[k]))
        }),
{
    let fs = root_files(root, ignore_dirs, ignore_files, ignore_exts);
    lemma_scan_flat(root.contents->0@, ignore_dirs, ignore_files, ignore_exts, m);
    lemma_any_news_iff(fs, m);
    lemma_record_all_values(fs, m);
}

/// A file that is new, or whose modification time is not the recorded one,
/// makes the scan report a change, and its new time is recorded.
pub proof fn lemma_news_reported(
    root: Dir,
    ignore_dirs: Seq<String>,
    ignore_files: Seq<String>,
    ignore_exts: Seq<String>,
    m: Map<Seq<char>, u64>,
    i: int,
)
    requires
        root_readable(root, ignore_dirs),
        consistent(root_files(root, ignore_dirs, ignore_files, ignore_exts)),
        0 <= i < root_files(root, ignore_dirs, ignore_files, ignore_exts).len(),
        is_news(root_files(root, ignore_dirs, ignore_files, ignore_exts)[i], m),
    ensures
        ({
            let f = root_files(root, ignore_dirs, ignore_files, ignore_exts)[i];
            let (r, m1) = scan_root(root, ignore_dirs, ignore_files, ignore_exts, m);
            &&& r == Ok::<bool, Seq<char>>(true)
            &&& m1.contains_key(f.path@)
            &&& m1[f.path@] == f.mtime->0
        }),
{
    lemma_scan_records(root, ignore_dirs, ignore_files, ignore_exts, m);
}

/// Scanning a readable tree a second time, with nothing modified in between,
/// reports no change and leaves the table as the first scan left it.
pub proof fn lemma_rescan_quiet(
    root: Dir,
    ignore_dirs: Seq<String>,
    ignore_files: Seq<String>,
    ignore_exts: Seq<String>,
    m: Map<Seq<char>, u64>,
)
    requires
        root_readable(root, ignore_dirs),
        consistent(root_files(root, ignore_dirs, ignore_files, ignore_exts)),
    ensures
        ({
            let m1 = scan_root(root, ignore_dirs, ignore_files, ignore_exts, m).1;
            scan_root(root, ignore_dirs, ignore_files, ignore_exts, m1) == (Ok::<bool, Seq<char>>(false), m1)
        }),
{
    let fs = root_files(root, ignore_dirs, ignore_files, ignore_exts);
    let m1 = scan_root(root, ignore_dirs, ignore_files, ignore_exts, m).1;
    lemma_scan_records(root, ignore_dirs, ignore_files, ignore_exts, m);
    lemma_scan_records(root, ignore_dirs, ignore_files, ignore_exts, m1);
    let m2 = scan_root(root, ignore_dirs, ignore_files, ignore_exts, m1).1;
    assert forall|k: Seq<char>| #[trigger] m2.contains_key(k) == m1.contains_key(k) by {
        if exists|i: int| 0 <= i < fs.len() && fs[i].path@ == k {
            let i = choose|i: int| 0 <= i < fs.len() && fs[i].path@ == k;
            assert(m1.contains_key(fs[i].path@));
            assert(m2.contains_key(fs[i].path@));
        } else {
            assert forall|i: int| 0 <= i < fs.len() implies #[trigger] fs[i].path@ != k by {}
            assert(m2.contains_key(k) == m1.contains_key(k));
        }
    }
    assert forall|k: Seq<char>| m2.contains_key(k) implies #[trigger] m2[k] == m1[k] by {
        if exists|i: int| 0 <= i < fs.len() && fs[i].path@ == k {
            let i = choose|i: int| 0 <= i < fs.len() && fs[i].path@ == k;
            assert(m1[fs[i].path@] == fs[i].mtime->0);
            assert(m2[fs[i].path@] == fs[i].mtime->0);
        } else {
            assert forall|i: int| 0 <= i < fs.len() implies #[trigger] fs[i].path@ != k by {}
        }
    }
    assert(m2 =~= m1);
    assert forall|i: int| 0 <= i < fs.len() implies !is_news(#[trigger] fs[i], m1) by {
        assert(m1.contains_key(fs[i].path@));
    }
}

/// Whether the listings `es` and `es2` differ only in what the scan passes
/// over, at any depth: entry for entry, both are passed over (an excluded
/// directory with anything beneath it, an excluded file, anything else), or
/// both are the same file, or both are the same directory that the scan
/// enters, unread in both or with listings that again differ only so.
pub open spec fn differ_in_passed_over(
    es: Seq<Entry>,
    es2: Seq<Entry>,
    ignore_dirs: Seq<String>,
    ignore_files: Seq<String>,
    ignore_exts: Seq<String>,
) -> bool
    decreases es,
    via differ_in_passed_over_decreases
{
    if es.len() != es2.len() {
        false
    } else if es.len() == 0 {
        true
    } else {
        let head = if passed_over(es[0], ignore_dirs, ignore_files, ignore_exts) {
            passed_over(es2[0], ignore_dirs, ignore_files, ignore_exts)
        } else {
            match (es[0], es2[0]) {
                (Entry::File(a), Entry::File(b)) => a == b,
                (Entry::Dir(a), Entry::Dir(b)) => a.name@ == b.name@ && a.path@ == b.path@ && match (a.contents, b.contents) {
                    (None, None) => true,
                    (Some(v), Some(w)) => differ_in_passed_over(v@, w@, ignore_dirs, ignore_files, ignore_exts),
                    _ => false,
                },
                _ => false,
            }
        };
        head && differ_in_passed_over(
            es.subrange(1, es.len() as int),
            es2.subrange(1, es2.len() as int),
            ignore_dirs,
            ignore_files,
            ignore_exts,
        )
    }
}

#[via_fn]
proof fn differ_in_passed_over_decreases(
    es: Seq<Entry>,
    es2: Seq<Entry>,
    ignore_dirs: Seq<String>,
    ignore_files: Seq<String>,
    ignore_exts: Seq<String>,
) {
    if es.len() > 0 {
        if let Entry::Dir(dir) = es[0] {
            if let Some(v) = dir.contents {
                lemma_contents_smaller(es, 0, v);
            }
        }
        assert(decreases_to!(es => es.subrange(1, es.len() as int)));
    }
}

/// Listings that differ only in what the scan passes over scan alike, from
/// any table: the same outcome, the same table after. So nothing beneath an
/// excluded directory, at whatever depth, and no excluded file, wherever it
/// stands, is ever recorded or reported: adding, removing or retiming such
/// files changes nothing.
pub proof fn lemma_passed_over_anywhere(
    es: Seq<Entry>,
    es2: Seq<Entry>,
    ignore_dirs: Seq<String>,
    ignore_files: Seq<String>,
    ignore_exts: Seq<String>,
    m: Map<Seq<char>, u64>,
)
    requires
        differ_in_passed_over(es, es2, ignore_dirs, ignore_files, ignore_exts),
    ensures
        scan_list(es, ignore_dirs, ignore_files, ignore_exts, m) == scan_list(
            es2,
            ignore_dirs,
            ignore_files,
            ignore_exts,
            m,
        ),
    decreases es,
{
    if es.len() > 0 {
        let rest = es.subrange(1, es.len() as int);
        let rest2 = es2.subrange(1, es2.len() as int);
        if !passed_over(es[0], ignore_dirs, ignore_files, ignore_exts) {
            if let Entry::Dir(a) = es[0] {
                if let Some(v) = a.contents {
                    let w = es2[0]->Dir_0.contents->0;
                    lemma_contents_smaller(es, 0, v);
                    lemma_passed_over_anywhere(v@, w@, ignore_dirs, ignore_files, ignore_exts, m);
                }
            }
        }
        let head = match es[0] {
            Entry::Dir(dir) => if skips_dir(ignore_dirs, dir.name@) {
                (Ok(false), m)
            } else {
                match dir.contents {
                    Some(v) => scan_list(v@, ignore_dirs, ignore_files, ignore_exts, m),
                    None => (Err(dir.path@), m),
                }
            },
            Entry::File(file) => {
                let step = crate::watcher::file_step(file, ignore_files, ignore_exts, m);
                (Ok(step.0), step.1)
            },
            Entry::Other => (Ok(false), m),
        };
        assert(decreases_to!(es => rest));
        lemma_passed_over_anywhere(rest, rest2, ignore_dirs, ignore_files, ignore_exts, head.1);
    }
}

/// Depth does not matter: two readable listings whose scans meet the same
/// files in the same order scan alike, however those files are spread over
/// subdirectories. A file at `a/b/c.txt` counts exactly as it would at the top.
pub proof fn lemma_depth_irrelevant(
    es: Seq<Entry>,
    es2: Seq<Entry>,
    ignore_dirs: Seq<String>,
    ignore_files: Seq<String>,
    ignore_exts: Seq<String>,
    m: Map<Seq<char>, u64>,
)
    requires
        readable(es, ignore_dirs),
        readable(es2, ignore_dirs),
        recorded_files(es, ignore_dirs, ignore_files, ignore_exts) == recorded_files(
            es2,
            ignore_dirs,
            ignore_files,
            ignore_exts,
        ),
    ensures
        scan_list(es, ignore_dirs, ignore_files, ignore_exts, m) == scan_list(
            es2,
            ignore_dirs,
            ignore_files,
            ignore_exts,
            m,
        ),
{
    lemma_scan_flat(es, ignore_dirs, ignore_files, ignore_exts, m);
    lemma_scan_flat(es2, ignore_dirs, ignore_files, ignore_exts, m);
}

/// Deleting files is no change: after a scan of a readable tree, a scan of a
/// readable tree whose files were all met by the first, each with the same
/// time, reports no change and leaves the table as it was. Paths of deleted
/// files stay recorded.
pub proof fn lemma_rescan_after_deletions(
    root: Dir,
    later: Dir,
    ignore_dirs: Seq<String>,
    ignore_files: Seq<String>,
    ignore_exts: Seq<String>,
    m: Map<Seq<char>, u64>,
)
    requires
        root_readable(root, ignore_dirs),
        root_readable(later, ignore_dirs),
        consistent(root_files(root, ignore_dirs, ignore_files, ignore_exts)),
        forall|j: int| 0 <= j < root_files(later, ignore_dirs, ignore_files, ignore_exts).len() ==>
            exists|i: int| 0 <= i < root_files(root, ignore_dirs, ignore_files, ignore_exts).len()
                && (#[trigger] root_files(root, ignore_dirs, ignore_files, ignore_exts)[i]).path@
                    == (#[trigger] root_files(later, ignore_dirs, ignore_files, ignore_exts)[j]).path@
                && root_files(root, ignore_dirs, ignore_files, ignore_exts)[i].mtime->0
                    == root_files(later, ignore_dirs, ignore_files, ignore_exts)[j].mtime->0,
    ensures
        ({
            let m1 = scan_root(root, ignore_dirs, ignore_files, ignore_exts, m).1;
            scan_root(later, ignore_dirs, ignore_files, ignore_exts, m1) == (Ok::<bool, Seq<char>>(false), m1)
        }),
{
    let fs = root_files(root, ignore_dirs, ignore_files, ignore_exts);
    let gs = root_files(later, ignore_dirs, ignore_files, ignore_exts);
    let m1 = scan_root(root, ignore_dirs, ignore_files, ignore_exts, m).1;
    lemma_scan_records(root, ignore_dirs, ignore_files, ignore_exts, m);
    // each later file is recorded in m1 with its own time
    assert forall|j: int| 0 <= j < gs.len() implies m1.contains_key(#[trigger] gs[j].path@)
        && m1[gs[j].path@] == gs[j].mtime->0 by {
        let i = choose|i: int| 0 <= i < fs.len() && (#[trigger] fs[i]).path@ == gs[j].path@
            && fs[i].mtime->0 == gs[j].mtime->0;
        assert(m1.contains_key(fs[i].path@));
    }
    assert forall|a: int, b: int|
        0 <= a < gs.len() && 0 <= b < gs.len() && #[trigger] gs[a].path@ == #[trigger] gs[b].path@
        implies gs[a].mtime->0 == gs[b].mtime->0 by {
        assert(m1[gs[a].path@] == gs[a].mtime->0);
        assert(m1[gs[b].path@] == gs[b].mtime->0);
    }
    lemma_scan_flat(later.contents->0@, ignore_dirs, ignore_files, ignore_exts, m1);
    lemma_any_news_iff(gs, m1);
    lemma_record_all_values(gs, m1);
    let m2 = record_all(gs, m1);
    assert forall|j: int| 0 <= j < gs.len() implies !is_news(#[trigger] gs[j], m1) by {
        assert(m1.contains_key(gs[j].path@));
    }
    assert forall|k: Seq<char>| #[trigger] m2.contains_key(k) == m1.contains_key(k) by {
        if exists|j: int| 0 <= j < gs.len() && gs[j].path@ == k {
            let j = choose|j: int| 0 <= j < gs.len() && gs[j].path@ == k;
            assert(m1.contains_key(gs[j].path@));
            assert(m2.contains_key(gs[j].path@));
        } else {
            assert forall|j: int| 0 <= j < gs.len() implies #[trigger] gs[j].path@ != k by {}
            assert(m2.contains_key(k) == m1.contains_key(k));
        }
    }
    assert forall|k: Seq<char>| m2.contains_key(k) implies #[trigger] m2[k] == m1[k] by {
        if exists|j: int| 0 <= j < gs.len() && gs[j].path@ == k {
            let j = choose|j: int| 0 <= j < gs.len() && gs[j].path@ == k;
            assert(m1[gs[j].path@] == gs[j].mtime->0);
            assert(m2[gs[j].path@] == gs[j].mtime->0);
        } else {
            assert forall|j: int| 0 <= j < gs.len() implies #[trigger] gs[j].path@ != k by {}
            assert(m2.contains_key(k) == m1.contains_key(k));
        }
    }
    assert(m2 =~= m1);
}

} // verus!
