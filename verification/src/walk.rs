//! Collecting the files of a run.
//!
//! Looking at the file system is the caller's part; deciding what to look at
//! next, and which files to keep, is done here.  The caller asks for the next
//! path, looks at it, and reports a file or the entries of a directory.  Paths
//! that are neither, and directories that cannot be read, are passed over;
//! nothing needs to be reported for them.  Entries of a directory are visited
//! before what was waiting, in their order, so that files come out in the order
//! of a walk that descends as it goes.  A directory that was entered before is
//! not entered again, which keeps a walk over links that form a cycle finite.

use crate::order::is_same_text;
use std::path::PathBuf;
use vstd::hash_set::StringHashSet;
use vstd::prelude::*;

verus! {

/// Whether a file of the name `name` is left out.
pub open spec fn is_left_out(name: Seq<char>, ignore_files: Option<Vec<String>>) -> bool {
    ignore_files matches Some(names) && names.deep_view().contains(name)
}

/// Tells whether a file of the name `name` is left out because `ignore_files`
/// lists its name.
pub fn is_ignored_file(name: &str, ignore_files: &Option<Vec<String>>) -> (ignored: bool)
    ensures
        ignored == is_left_out(name@, *ignore_files),
{
    match ignore_files {
        Some(names) => {
            let mut i: usize = 0;
            while i < names.len()
                invariant
                    i <= names.len(),
                    *ignore_files == Some(*names),
                    forall|k: int| 0 <= k < i ==> #[trigger] names.deep_view()[k] != name@,
                decreases names.len() - i,
            {
                if is_same_text(names[i].as_str(), name) {
                    assert(names.deep_view()[i as int] == name@);
                    return true;
                }
                i += 1;
            }
            false
        },
        None => false,
    }
}

/// The state of a walk: the paths still to be looked at, the files kept so
/// far, and the directories entered.
pub struct Walk {
    /// The paths to look at, the next one last.
    stack: Vec<PathBuf>,
    /// The files kept, in the order in which they were found.
    files: Vec<PathBuf>,
    /// The identities of the directories entered.
    entered: StringHashSet,
}

impl Walk {
    /// The paths still to be looked at, the next one first.
    pub closed spec fn pending(&self) -> Seq<PathBuf> {
        self.stack@.reverse()
    }

    /// The files kept so far, in the order in which they were found.
    pub closed spec fn kept(&self) -> Seq<PathBuf> {
        self.files@
    }

    /// The identities of the directories entered so far.
    pub closed spec fn entered(&self) -> Set<Seq<char>> {
        self.entered@
    }

    /// A walk that starts at `targets`, in their order.
    pub fn new(targets: Vec<PathBuf>) -> (walk: Walk)
        ensures
            walk.pending() == targets@,
            walk.kept() == Seq::<PathBuf>::empty(),
            walk.entered() == Set::<Seq<char>>::empty(),
    {
        let mut walk = Walk { stack: Vec::new(), files: Vec::new(), entered: StringHashSet::new() };
        walk.put_first(targets);
        walk
    }

    /// Puts `paths` before what is waiting, in their order.
    fn put_first(&mut self, paths: Vec<PathBuf>)
        ensures
            final(self).pending() == paths@ + old(self).pending(),
            final(self).kept() == old(self).kept(),
            final(self).entered() == old(self).entered(),
    {
        let mut rest = paths;
        while rest.len() > 0
            invariant
                self.files == old(self).files,
                self.entered == old(self).entered,
                rest@.len() <= paths@.len(),
                rest@ == paths@.take(rest@.len() as int),
                self.stack@.reverse() == paths@.skip(rest@.len() as int) + old(
                    self,
                ).stack@.reverse(),
            decreases rest.len(),
        {
            let ghost held = self.stack@;
            let path = rest.pop().unwrap();
            self.stack.push(path);
            assert(self.stack@.reverse() =~= seq![path] + held.reverse());
        }
    }

    /// The next path to look at, if any is waiting.
    pub fn next(&mut self) -> (path: Option<PathBuf>)
        ensures
            final(self).kept() == old(self).kept(),
            final(self).entered() == old(self).entered(),
            match path {
                Some(next) => old(self).pending().len() > 0 && next == old(self).pending()[0]
                    && final(self).pending() == old(self).pending().drop_first(),
                None => old(self).pending().len() == 0 && final(self).pending() == old(
                    self,
                ).pending(),
            },
    {
        self.stack.pop()
    }

    /// Reports that `path` is a file of the name `name`: it is kept unless
    /// `ignore_files` lists its name.
    pub fn file(&mut self, path: PathBuf, name: &str, ignore_files: &Option<Vec<String>>)
        ensures
            final(self).pending() == old(self).pending(),
            final(self).entered() == old(self).entered(),
            final(self).kept() == if is_left_out(name@, *ignore_files) {
                old(self).kept()
            } else {
                old(self).kept().push(path)
            },
    {
        if !is_ignored_file(name, ignore_files) {
            self.files.push(path);
        }
    }

    /// Reports a directory of the identity `identity` and its entries.  Where
    /// the directory was not entered before, its entries are looked at next,
    /// in their order; where it was, they are dropped.
    pub fn directory(&mut self, identity: String, entries: Vec<PathBuf>)
        ensures
            final(self).kept() == old(self).kept(),
            final(self).entered() == old(self).entered().insert(identity@),
            final(self).pending() == if old(self).entered().contains(identity@) {
                old(self).pending()
            } else {
                entries@ + old(self).pending()
            },
    {
        if self.entered.insert(identity) {
            self.put_first(entries);
        }
    }

    /// Ends the walk and hands out the files kept.
    pub fn into_files(self) -> (files: Vec<PathBuf>)
        ensures
            files@ == self.kept(),
    {
        self.files
    }
}

} // verus!
