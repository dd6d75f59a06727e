//! The configuration the runner works from, and the choice of a command set.
use vstd::prelude::*;
use crate::process_manager::{lines_of, Platform};

verus! {

/// Names left out of the scan.
pub struct Exclude {
    /// Directory names, matched at every level of the tree.
    pub dir: Vec<String>,
    /// Bare file names.
    pub file: Vec<String>,
    /// File extensions, without the dot.
    pub ext: Vec<String>,
}

/// The named command sets of each platform, as (name, command lines).
pub struct Os {
    pub unix: Vec<(String, Vec<String>)>,
    pub windows: Vec<(String, Vec<String>)>,
}

pub struct Config {
    /// The root of the tree to watch.
    pub root_dir: String,
    pub os: Os,
    pub exclude: Exclude,
}

/// No command set of that name, or an empty one.
#[derive(Clone, Debug, PartialEq, Eq)]
pub struct SelectionError {
    pub name: String,
}

/// The command sets of `platform`.
pub open spec fn sets_of(os: Os, platform: Platform) -> Seq<(String, Vec<String>)> {
    match platform {
        Platform::Unix => os.unix@,
        Platform::Windows => os.windows@,
    }
}

/// Whether entry `i` of `sets` is the first one called `name`.
pub open spec fn first_named(sets: Seq<(String, Vec<String>)>, name: Seq<char>, i: int) -> bool {
    &&& 0 <= i < sets.len()
    &&& sets[i].0@ == name
    &&& forall|j: int| 0 <= j < i ==> #[trigger] sets[j].0@ != name
}

/// The command lines of the set called `name`, or none when there is no
/// such set. Where a name occurs twice, the first set counts.
pub open spec fn set_named(sets: Seq<(String, Vec<String>)>, name: Seq<char>) -> Option<Seq<Seq<char>>> {
    if exists|i: int| first_named(sets, name, i) {
        let i = choose|i: int| first_named(sets, name, i);
        Some(lines_of(sets[i].1@))
    } else {
        None
    }
}

/// Copies of the strings of `v`.
fn copy_lines(v: &Vec<String>) -> (r: Vec<String>)
    ensures
        r@ == v@,
{
    let mut r: Vec<String> = Vec::new();
    let mut i: usize = 0;
    while i < v.len()
        invariant
            0 <= i <= v@.len(),
            r@ == v@.subrange(0, i as int),
        decreases v.len() - i,
    {
        r.push(v[i].clone());
        i = i + 1;
        assert(r@ =~= v@.subrange(0, i as int));
    }
    assert(v@.subrange(0, i as int) =~= v@);
    r
}

impl Config {
    /// The configuration written for a new project: the current directory
    /// watched, an empty `dev` set on each platform, `.git` directories and
    /// `toml` files left out.
    pub fn default_config() -> (r: Config)
        ensures
            r.root_dir@ == "."@,
            r.os.unix@.len() == 1,
            r.os.unix@[0].0@ == "dev"@,
            r.os.unix@[0].1@.len() == 0,
            r.os.windows@.len() == 1,
            r.os.windows@[0].0@ == "dev"@,
            r.os.windows@[0].1@.len() == 0,
            r.exclude.dir@.len() == 1,
            r.exclude.dir@[0]@ == ".git"@,
            r.exclude.file@.len() == 0,
            r.exclude.ext@.len() == 1,
            r.exclude.ext@[0]@ == "toml"@,
    {
        let mut unix: Vec<(String, Vec<String>)> = Vec::new();
        unix.push(("dev".to_owned(), Vec::new()));
        let mut windows: Vec<(String, Vec<String>)> = Vec::new();
        windows.push(("dev".to_owned(), Vec::new()));
        let mut dir: Vec<String> = Vec::new();
        dir.push(".git".to_owned());
        let mut ext: Vec<String> = Vec::new();
        ext.push("toml".to_owned());
        Config {
            root_dir: ".".to_owned(),
            os: Os { unix, windows },
            exclude: Exclude { dir, file: Vec::new(), ext },
        }
    }

    /// The command lines of the set called `name` on `platform`. Fails when
    /// there is no such set or it is empty: there is nothing to run.
    pub fn commands_for(&self, platform: Platform, name: &String) -> (r: Result<Vec<String>, SelectionError>)
        ensures
            match set_named(sets_of(self.os, platform), name@) {
                Some(cmds) => if cmds.len() > 0 {
                    r is Ok && lines_of(r->Ok_0@) == cmds
                } else {
                    r is Err && r->Err_0.name@ == name@
                },
                None => r is Err && r->Err_0.name@ == name@,
            },
    {
        let sets = match platform {
            Platform::Unix => &self.os.unix,
            Platform::Windows => &self.os.windows,
        };
        let mut i: usize = 0;
        while i < sets.len()
            invariant
                0 <= i <= sets@.len(),
                *sets == (match platform {
                    Platform::Unix => self.os.unix,
                    Platform::Windows => self.os.windows,
                }),
                forall|j: int| 0 <= j < i ==> #[trigger] sets@[j].0@ != name@,
            decreases sets.len() - i,
        {
            if sets[i].0 == *name {
                proof {
                    let k = choose|k: int| first_named(sets@, name@, k);
                    assert(first_named(sets@, name@, i as int));
                    if k < i {
                        assert(sets@[k].0@ != name@);
                    } else if k > i {
                        assert(sets@[i as int].0@ != name@);
                    }
                }
                if sets[i].1.len() == 0 {
                    return Err(SelectionError { name: name.clone() });
                }
                return Ok(copy_lines(&sets[i].1));
            }
            i = i + 1;
        }
        Err(SelectionError { name: name.clone() })
    }
}

} // verus!
