//! Name-based ignore rules of the change detector.
use vstd::prelude::*;

verus! {

/// Whether `name` equals one of the strings of `list`.
pub open spec fn listed(list: Seq<String>, name: Seq<char>) -> bool {
    exists|i: int| 0 <= i < list.len() && #[trigger] list[i]@ == name
}

/// Whether position `k` of `name` holds the last `.` of the name.
pub open spec fn is_last_dot(name: Seq<char>, k: int) -> bool {
    &&& 0 <= k < name.len()
    &&& name[k] == '.'
    &&& forall|j: int| k < j < name.len() ==> name[j] != '.'
}

/// The extension of a file name: what follows its last `.`, provided that
/// dot is not the first character. Names without such a dot have the empty
/// extension (`".bashrc"`, `"Makefile"`).
pub open spec fn extension_of(name: Seq<char>) -> Seq<char> {
    if exists|k: int| 0 < k && is_last_dot(name, k) {
        let k = choose|k: int| 0 < k && is_last_dot(name, k);
        name.subrange(k + 1, name.len() as int)
    } else {
        Seq::empty()
    }
}

/// A directory entry with this name is skipped, not descended into.
pub open spec fn skips_dir(ignore_dirs: Seq<String>, name: Seq<char>) -> bool {
    listed(ignore_dirs, name)
}

/// A file with this name is never recorded: its extension or its bare name is
/// excluded.
pub open spec fn skips_file(ignore_files: Seq<String>, ignore_exts: Seq<String>, name: Seq<char>) -> bool {
    listed(ignore_exts, extension_of(name)) || listed(ignore_files, name)
}

/// Whether `name` is one of the strings in `list`.
pub fn is_listed(list: &Vec<String>, name: &String) -> (r: bool)
    ensures
        r == listed(list@, name@),
{
    let mut i: usize = 0;
    while i < list.len()
        invariant
            0 <= i <= list.len(),
            forall|j: int| 0 <= j < i ==> #[trigger] list@[j]@ != name@,
        decreases list.len() - i,
    {
        if list[i] == *name {
            return true;
        }
        i = i + 1;
    }
    false
}

/// The extension of the file name `name`, without its dot; empty when there
/// is none.
pub fn file_extension(name: &str) -> (r: String)
    ensures
        r@ == extension_of(name@),
{
    let n = name.unicode_len();
    let mut i: usize = n;
    while i > 0
        invariant
            0 <= i <= n,
            n == name@.len(),
            forall|j: int| i <= j < n ==> name@[j] != '.',
        decreases i,
    {
        if name.get_char(i - 1) == '.' {
            let k = i - 1;
            assert(is_last_dot(name@, k as int));
            if k == 0 {
                assert forall|k2: int| !(0 < k2 && is_last_dot(name@, k2)) by {
                    if 0 < k2 && is_last_dot(name@, k2) {
                        assert(name@[k2] == '.');
                    }
                }
                return String::new();
            }
            proof {
                let c = choose|c: int| 0 < c && is_last_dot(name@, c);
                if c < k {
                    assert(name@[k as int] == '.');
                } else if c > k {
                    assert(name@[c] == '.');
                }
                assert(c == k);
            }
            return name.substring_char(i, n).to_owned();
        }
        i = i - 1;
    }
    assert forall|k2: int| !(0 < k2 && is_last_dot(name@, k2)) by {
        if 0 < k2 && is_last_dot(name@, k2) {
            assert(name@[k2] == '.');
        }
    }
    String::new()
}

/// Whether the scan skips a directory called `name`.
pub fn is_excluded_dir(ignore_dirs: &Vec<String>, name: &String) -> (r: bool)
    ensures
        r == skips_dir(ignore_dirs@, name@),
{
    is_listed(ignore_dirs, name)
}

/// Whether the scan never records a file called `name`.
pub fn is_excluded_file(ignore_files: &Vec<String>, ignore_exts: &Vec<String>, name: &String) -> (r: bool)
    ensures
        r == skips_file(ignore_files@, ignore_exts@, name@),
{
    let ext = file_extension(name.as_str());
    is_listed(ignore_exts, &ext) || is_listed(ignore_files, name)
}

} // verus!
