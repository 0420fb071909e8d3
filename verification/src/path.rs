//! The search path: the directories in which a program is looked for.

use crate::text::split;
use crate::text::split_at_char;
use crate::text::views;
use vstd::prelude::*;
use vstd::string::StringExecFns;

verus! {

/// `s` without the repetitions: of equal entries the first stays.
pub open spec fn distinct(s: Seq<Seq<char>>) -> Seq<Seq<char>>
    decreases s.len(),
{
    if s.len() == 0 {
        Seq::empty()
    } else if distinct(s.drop_last()).contains(s.last()) {
        distinct(s.drop_last())
    } else {
        distinct(s.drop_last()).push(s.last())
    }
}

/// Where `name` would be found in the directory `dir`.
pub open spec fn candidate(dir: Seq<char>, name: Seq<char>) -> Seq<char> {
    dir + "/"@ + name
}

/// `distinct` keeps every entry once, and in the order of first occurrence.
pub proof fn lemma_distinct(s: Seq<Seq<char>>)
    ensures
        distinct(s).no_duplicates(),
        forall|x: Seq<char>| distinct(s).contains(x) <==> s.contains(x),
        distinct(s).len() <= s.len(),
        s.no_duplicates() ==> distinct(s) == s,
    decreases s.len(),
{
    if s.len() > 0 {
        let front = s.drop_last();
        let d = distinct(front);
        lemma_distinct(front);
        assert forall|x: Seq<char>| distinct(s).contains(x) <==> s.contains(x) by {
            if s.contains(x) {
                let i = choose|i: int| 0 <= i < s.len() && s[i] == x;
                if i < s.len() - 1 {
                    assert(front[i] == x);
                    assert(front.contains(x));
                    let k = choose|k: int| 0 <= k < d.len() && d[k] == x;
                    assert(distinct(s)[k] == x);
                } else if !d.contains(x) {
                    assert(distinct(s)[d.len() as int] == x);
                }
            }
            if distinct(s).contains(x) {
                let k = choose|k: int| 0 <= k < distinct(s).len() && distinct(s)[k] == x;
                if k < d.len() {
                    assert(d[k] == x);
                    assert(d.contains(x));
                    assert(front.contains(x));
                    let i = choose|i: int| 0 <= i < front.len() && front[i] == x;
                    assert(s[i] == x);
                } else {
                    assert(s[s.len() - 1] == x);
                }
            }
        }
        if s.no_duplicates() {
            assert(front.no_duplicates());
            if front.contains(s.last()) {
                let i = choose|i: int| 0 <= i < front.len() && front[i] == s.last();
                assert(s[i] == s[s.len() - 1]);
            }
            assert(distinct(s) =~= s);
        }
    }
}

/// Whether one of `list` holds the characters of `entry`.
fn holds(list: &Vec<String>, entry: &String) -> (found: bool)
    ensures
        found == views(list@).contains(entry@),
{
    let mut i: usize = 0;
    while i < list.len()
        invariant
            i <= list.len(),
            forall|j: int| 0 <= j < i ==> views(list@)[j] != entry@,
        decreases list.len() - i,
    {
        if list[i] == *entry {
            assert(views(list@)[i as int] == entry@);
            return true;
        }
        i = i + 1;
    }
    false
}

/// The directories in which programs are looked for: an ordered list in
/// which nothing occurs twice.
///
/// The search goes through them in this order, so of several directories
/// that hold a name the first one wins, every time.
#[derive(Debug)]
pub struct SearchPath {
    dirs: Vec<String>,
}

impl View for SearchPath {
    type V = Seq<Seq<char>>;

    closed spec fn view(&self) -> Seq<Seq<char>> {
        views(self.dirs@)
    }
}

impl SearchPath {
    #[verifier::type_invariant]
    spec fn no_directory_twice(self) -> bool {
        views(self.dirs@).no_duplicates()
    }

    /// The directories of `dirs`, each once, in the order of first
    /// occurrence.
    pub fn new(dirs: Vec<String>) -> (path: SearchPath)
        ensures
            path@ == distinct(views(dirs@)),
            path@.no_duplicates(),
    {
        let mut kept: Vec<String> = Vec::new();
        let ghost all = views(dirs@);
        let mut i: usize = 0;
        assert(all.take(0) =~= Seq::empty());
        assert(views(kept@) =~= Seq::<Seq<char>>::empty());
        while i < dirs.len()
            invariant
                i <= dirs.len(),
                all == views(dirs@),
                views(kept@) == distinct(all.take(i as int)),
            decreases dirs.len() - i,
        {
            assert(all.take(i + 1).drop_last() =~= all.take(i as int));
            assert(all.take(i + 1).last() == dirs@[i as int]@);
            if !holds(&kept, &dirs[i]) {
                let dir = dirs[i].clone();
                assert(views(kept@.push(dir)) =~= views(kept@).push(dir@));
                kept.push(dir);
            }
            i = i + 1;
        }
        proof {
            assert(all.take(i as int) =~= all);
            lemma_distinct(all);
        }
        SearchPath { dirs: kept }
    }

    /// The search path that the text of a `PATH` variable names: its pieces
    /// between colons, each once.
    pub fn from_var(var: &str) -> (path: SearchPath)
        ensures
            path@ == distinct(split(var@, ':')),
            path@.no_duplicates(),
    {
        SearchPath::new(split_at_char(var, ':'))
    }

    /// The number of directories.
    pub fn len(&self) -> (n: usize)
        ensures
            n == self@.len(),
    {
        self.dirs.len()
    }

    /// The directories, in the order in which they are searched.
    pub fn dirs(&self) -> (dirs: &Vec<String>)
        ensures
            views(dirs@) == self@,
            self@.no_duplicates(),
    {
        proof {
            use_type_invariant(self);
        }
        &self.dirs
    }

    /// Where `name` would be found in the directory at position `index`, if
    /// there is such a directory.
    pub fn candidate(&self, index: usize, name: &str) -> (file: Option<String>)
        ensures
            index < self@.len() ==> file is Some && file->0@ == candidate(
                self@[index as int],
                name@,
            ),
            index >= self@.len() ==> file is None,
    {
        if index < self.dirs.len() {
            let mut file = self.dirs[index].clone();
            file.append("/");
            file.append(name);
            Some(file)
        } else {
            None
        }
    }
}

} // verus!
