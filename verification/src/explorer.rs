//! The file explorer below the file list: whether it is open, the tree it
//! shows once loaded, and which directories are expanded.
use vstd::prelude::*;
use crate::git::TreeNode;
use crate::session::Job;
use crate::text::{chars_eq_str, to_chars};

verus! {

/// The explorer's state.
#[derive(Debug)]
pub struct Explorer {
    pub open: bool,
    /// The file tree, once it has been loaded.
    pub tree: Option<Vec<TreeNode>>,
    /// The paths of the expanded directories.
    pub expanded: Vec<String>,
}

/// The set of paths that a list of expanded directories names.
pub open spec fn expanded_set(v: Seq<String>) -> Set<Seq<char>> {
    Set::new(|p: Seq<char>| exists|i: int| 0 <= i < v.len() && #[trigger] v[i]@ == p)
}

fn string_is(s: &String, t: &str) -> (b: bool)
    ensures
        b == (s@ == t@),
{
    chars_eq_str(&to_chars(s.as_str()), t)
}

impl Explorer {
    /// The explorer of a window that has just opened: open, its tree not
    /// loaded yet, nothing expanded.
    pub fn new() -> (e: Explorer)
        ensures
            e.open,
            e.tree is None,
            expanded_set(e.expanded@) == Set::<Seq<char>>::empty(),
    {
        let e = Explorer { open: true, tree: None, expanded: Vec::new() };
        proof {
            assert(expanded_set(e.expanded@) =~= Set::<Seq<char>>::empty());
        }
        e
    }

    /// Opens or closes the explorer; opening it asks for the tree of `repo`
    /// when none is loaded.
    pub fn toggle(&mut self, repo: &String) -> (job: Option<Job>)
        ensures
            final(self).open == !old(self).open,
            final(self).tree == old(self).tree,
            final(self).expanded == old(self).expanded,
            job is Some <==> (!old(self).open && old(self).tree is None),
            job matches Some(j) ==> j matches Job::LoadTree { repo: r } && r@ == repo@,
    {
        self.open = !self.open;
        if self.open && self.tree.is_none() {
            Some(Job::LoadTree { repo: repo.clone() })
        } else {
            None
        }
    }

    /// Forgets the tree and the expanded directories, as when the window
    /// moves to another repository.
    pub fn forget(&mut self)
        ensures
            final(self).open == old(self).open,
            final(self).tree is None,
            expanded_set(final(self).expanded@) == Set::<Seq<char>>::empty(),
    {
        self.tree = None;
        self.expanded = Vec::new();
        proof {
            assert(expanded_set(self.expanded@) =~= Set::<Seq<char>>::empty());
        }
    }

    /// Whether the directory at `path` is expanded.
    pub fn is_expanded(&self, path: &str) -> (b: bool)
        ensures
            b == expanded_set(self.expanded@).contains(path@),
    {
        let mut i: usize = 0;
        while i < self.expanded.len()
            invariant
                i <= self.expanded@.len(),
                forall|k: int| 0 <= k < i ==> #[trigger] self.expanded@[k]@ != path@,
            decreases self.expanded@.len() - i,
        {
            if string_is(&self.expanded[i], path) {
                proof {
                    assert(self.expanded@[i as int]@ == path@);
                }
                return true;
            }
            i += 1;
        }
        false
    }

    /// Expands the directory at `path`, or folds it when it is expanded.
    pub fn toggle_dir(&mut self, path: &str)
        ensures
            final(self).open == old(self).open,
            final(self).tree == old(self).tree,
            expanded_set(final(self).expanded@) == if expanded_set(old(self).expanded@).contains(
                path@,
            ) {
                expanded_set(old(self).expanded@).remove(path@)
            } else {
                expanded_set(old(self).expanded@).insert(path@)
            },
    {
        let ghost before = expanded_set(self.expanded@);
        if self.is_expanded(path) {
            let mut kept: Vec<String> = Vec::new();
            let mut i: usize = 0;
            while i < self.expanded.len()
                invariant
                    i <= self.expanded@.len(),
                    before == expanded_set(self.expanded@),
                    forall|k: int| 0 <= k < kept@.len() ==> #[trigger] kept@[k]@ != path@,
                    forall|k: int| #![trigger kept@[k]] 0 <= k < kept@.len() ==> exists|j: int|
                        0 <= j < i && #[trigger] self.expanded@[j]@ == kept@[k]@,
                    forall|j: int| 0 <= j < i && #[trigger] self.expanded@[j]@ != path@
                        ==> exists|k: int| 0 <= k < kept@.len() && kept@[k]@ == self.expanded@[j]@,
                decreases self.expanded@.len() - i,
            {
                if !string_is(&self.expanded[i], path) {
                    let ghost prev = kept@;
                    kept.push(self.expanded[i].clone());
                    proof {
                        assert(kept@[prev.len() as int] == self.expanded@[i as int]);
                        assert forall|j: int| 0 <= j < i + 1 && #[trigger] self.expanded@[j]@
                            != path@ implies exists|k: int|
                            0 <= k < kept@.len() && kept@[k]@ == self.expanded@[j]@ by {
                            if j < i {
                                let k = choose|k: int|
                                    0 <= k < prev.len() && prev[k]@ == self.expanded@[j]@;
                                assert(kept@[k] == prev[k]);
                            } else {
                                assert(kept@[prev.len() as int]@ == self.expanded@[j]@);
                            }
                        }
                        assert forall|k: int| #![trigger kept@[k]] 0 <= k < kept@.len() implies exists|j: int|
                            0 <= j < i + 1 && #[trigger] self.expanded@[j]@ == kept@[k]@ by {
                            if k < prev.len() {
                                assert(kept@[k] == prev[k]);
                                let j = choose|j: int|
                                    0 <= j < i && #[trigger] self.expanded@[j]@ == prev[k]@;
                                assert(self.expanded@[j]@ == kept@[k]@);
                            } else {
                                assert(self.expanded@[i as int]@ == kept@[k]@);
                            }
                        }
                    }
                }
                i += 1;
            }
            proof {
                assert forall|p: Seq<char>| #[trigger] expanded_set(kept@).contains(p) == before.remove(
                    path@,
                ).contains(p) by {
                    if expanded_set(kept@).contains(p) {
                        let k = choose|k: int| 0 <= k < kept@.len() && #[trigger] kept@[k]@ == p;
                        let j = choose|j: int|
                            0 <= j < self.expanded@.len() && #[trigger] self.expanded@[j]@ == kept@[k]@;
                        assert(before.contains(p));
                    }
                    if before.remove(path@).contains(p) {
                        let j = choose|j: int|
                            0 <= j < self.expanded@.len() && #[trigger] self.expanded@[j]@ == p;
                        let k = choose|k: int| 0 <= k < kept@.len() && kept@[k]@ == self.expanded@[j]@;
                        assert(kept@[k]@ == p);
                    }
                }
                assert(expanded_set(kept@) =~= before.remove(path@));
            }
            self.expanded = kept;
        } else {
            let ghost prev = self.expanded@;
            self.expanded.push(path.to_string());
            proof {
                assert(self.expanded@[prev.len() as int]@ == path@);
                assert forall|p: Seq<char>| #[trigger] expanded_set(self.expanded@).contains(p)
                    == before.insert(path@).contains(p) by {
                    if before.contains(p) {
                        let j = choose|j: int| 0 <= j < prev.len() && #[trigger] prev[j]@ == p;
                        assert(self.expanded@[j] == prev[j]);
                    }
                    if expanded_set(self.expanded@).contains(p) && p != path@ {
                        let j = choose|j: int|
                            0 <= j < self.expanded@.len() && #[trigger] self.expanded@[j]@ == p;
                        assert(j < prev.len());
                        assert(prev[j] == self.expanded@[j]);
                    }
                }
                assert(expanded_set(self.expanded@) =~= before.insert(path@));
            }
        }
    }
}

} // verus!
