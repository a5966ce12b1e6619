use vstd::prelude::*;
use crate::errors::{CompletionError, CrushResult};
use crate::text::{copy_strings, same_strings, strings_view};

verus! {

/// A path with its `.` segments left out: it names the same directory.
pub open spec fn normalized(path: Seq<Seq<char>>) -> Seq<Seq<char>>
    decreases path.len(),
{
    if path.len() == 0 {
        Seq::empty()
    } else {
        let rest = normalized(path.drop_last());
        if path.last() == seq!['.'] {
            rest
        } else {
            rest.push(path.last())
        }
    }
}

/// The names of the entries of directories, each directory given by its path
/// relative to the working directory, as a sequence of segments. The empty
/// path is the working directory itself.
pub struct DirectoryLister {
    dirs: Vec<Vec<String>>,
    entries: Vec<Vec<String>>,
}

impl DirectoryLister {
    pub closed spec fn dir_views(&self) -> Seq<Seq<Seq<char>>> {
        self.dirs@.map_values(|d: Vec<String>| normalized(strings_view(d@)))
    }

    /// The entries of `dir`, as given by the first directory added under
    /// that path; none where the directory is unknown.
    pub closed spec fn listing(&self, dir: Seq<Seq<char>>) -> Option<Seq<Seq<char>>> {
        let views = self.dir_views();
        let target = normalized(dir);
        if exists|i: int| #![auto] 0 <= i < views.len() && views[i] == target && (forall|k: int| 0 <= k < i ==> views[k] != target) {
            let i = choose|i: int| #![auto] 0 <= i < views.len() && views[i] == target && (forall|k: int| 0 <= k < i ==> views[k] != target);
            if i < self.entries@.len() {
                Some(strings_view(self.entries@[i]@))
            } else {
                None
            }
        } else {
            None
        }
    }

    /// Each added directory has its entries.
    pub closed spec fn wf(&self) -> bool {
        self.dirs@.len() == self.entries@.len()
    }

    pub fn new() -> (r: DirectoryLister)
        ensures
            r.wf(),
            forall|d: Seq<Seq<char>>| r.listing(d) is None,
    {
        DirectoryLister { dirs: Vec::new(), entries: Vec::new() }
    }

    /// Adds the directory `dir` with the entries `names`. A directory that
    /// was already added keeps its first entries.
    pub fn add(&mut self, dir: Vec<String>, names: Vec<String>)
        requires
            old(self).wf(),
        ensures
            final(self).wf(),
            old(self).listing(strings_view(dir@)) is None ==> final(self).listing(strings_view(dir@))
                == Some(strings_view(names@)),
    {
        let ghost target = normalized(strings_view(dir@));
        let ghost len = self.dirs@.len();
        let ghost old_views = self.dir_views();
        self.dirs.push(dir);
        self.entries.push(names);
        proof {
            let views = self.dir_views();
            assert(views =~= old_views.push(target));
            if old(self).listing(strings_view(dir@)) is None {
                if exists|k: int| 0 <= k < len && old_views[k] == target {
                    let k = choose|k: int| 0 <= k < len && old_views[k] == target;
                    lemma_first_of(old_views, target, k);
                    let j = choose|i: int| #![auto] 0 <= i < old_views.len() && old_views[i] == target && (forall|m: int| 0 <= m < i ==> old_views[m] != target);
                    assert(j < old(self).entries@.len());
                }
                assert(forall|k: int| 0 <= k < len ==> views[k] != target);
                assert(views[len as int] == target);
                let j = choose|i: int| #![auto] 0 <= i < views.len() && views[i] == target && (forall|m: int| 0 <= m < i ==> views[m] != target);
                assert(j == len);
            }
        }
    }

    /// The entries of `dir`. Fails with `IoError` where the directory is unknown.
    pub fn list(&self, dir: &Vec<String>) -> (r: CrushResult<Vec<String>>)
        ensures
            match self.listing(strings_view(dir@)) {
                Some(es) => r is Ok && strings_view(r->Ok_0@) == es,
                None => r == Err::<Vec<String>, CompletionError>(CompletionError::IoError),
            },
    {
        let target = normalize(dir);
        let ghost views = self.dir_views();
        let mut i: usize = 0;
        while i < self.dirs.len()
            invariant
                i <= self.dirs@.len(),
                views == self.dir_views(),
                views.len() == self.dirs@.len(),
                strings_view(target@) == normalized(strings_view(dir@)),
                forall|k: int| 0 <= k < i ==> views[k] != strings_view(target@),
            decreases self.dirs@.len() - i,
        {
            let d = normalize(&self.dirs[i]);
            if same_strings(&d, &target) {
                proof {
                    let t = strings_view(target@);
                    assert(views[i as int] == t);
                    let j = choose|j: int| #![auto] 0 <= j < views.len() && views[j] == t && (forall|m: int| 0 <= m < j ==> views[m] != t);
                    if j < i {
                        assert(views[j] != t);
                    }
                    if i < j {
                        assert(views[i as int] != t);
                    }
                }
                if i < self.entries.len() {
                    return Ok(copy_strings(&self.entries[i]));
                }
                return Err(CompletionError::IoError);
            }
            i = i + 1;
        }
        Err(CompletionError::IoError)
    }
}

proof fn lemma_first_of(views: Seq<Seq<Seq<char>>>, target: Seq<Seq<char>>, k: int)
    requires
        0 <= k < views.len(),
        views[k] == target,
    ensures
        exists|i: int| #![auto] 0 <= i < views.len() && views[i] == target && (forall|m: int| 0 <= m < i ==> views[m] != target),
    decreases k,
{
    if exists|m: int| 0 <= m < k && views[m] == target {
        let m = choose|m: int| 0 <= m < k && views[m] == target;
        lemma_first_of(views, target, m);
    } else {
        assert(views[k] == target && (forall|m: int| 0 <= m < k ==> views[m] != target));
    }
}

/// `path` without its `.` segments.
fn normalize(path: &Vec<String>) -> (r: Vec<String>)
    ensures
        strings_view(r@) == normalized(strings_view(path@)),
{
    let mut r: Vec<String> = Vec::new();
    let mut i: usize = 0;
    while i < path.len()
        invariant
            i <= path@.len(),
            strings_view(r@) == normalized(strings_view(path@.subrange(0, i as int))),
        decreases path@.len() - i,
    {
        let s = path[i].as_str();
        let ghost pre = strings_view(path@.subrange(0, i + 1));
        proof {
            assert(pre.drop_last() =~= strings_view(path@.subrange(0, i as int)));
            assert(pre.last() == path@[i as int]@);
        }
        let dot = s.unicode_len() == 1 && s.get_char(0) == '.';
        proof {
            if dot {
                assert(s@ =~= seq!['.']);
            } else if s@ == seq!['.'] {
                assert(s@.len() == 1 && s@[0] == '.');
            }
        }
        if !dot {
            r.push(path[i].clone());
            proof {
                assert(strings_view(r@) =~= normalized(pre));
            }
        }
        i = i + 1;
    }
    assert(path@.subrange(0, i as int) =~= path@);
    r
}

} // verus!
