//! Which directories of stored outputs have been swept in this process.

use vstd::prelude::*;
use vstd::string::*;

use crate::history::texts;
use crate::text::same_text;

verus! {

/// The directories that have been swept: each at most once, unless the sweep failed.
#[derive(Debug)]
pub struct SweptRoots {
    roots: Vec<String>,
}

impl View for SweptRoots {
    type V = Set<Seq<char>>;

    closed spec fn view(&self) -> Set<Seq<char>> {
        texts(self.roots@).to_set()
    }
}

impl Default for SweptRoots {
    fn default() -> (r: Self)
        ensures
            r@ == Set::<Seq<char>>::empty(),
    {
        let r = SweptRoots { roots: Vec::new() };
        proof {
            assert(r@ =~= Set::<Seq<char>>::empty());
        }
        r
    }
}

impl SweptRoots {
    #[verifier::type_invariant]
    spec fn each_once(&self) -> bool {
        texts(self.roots@).no_duplicates()
    }

    fn find(&self, root: &str) -> (r: Option<usize>)
        ensures
            (match r {
                Some(i) => i < self.roots@.len() && self.roots@[i as int]@ == root@ && self@.contains(
                    root@,
                ),
                None => !self@.contains(root@),
            }),
    {
        let mut i: usize = 0;
        while i < self.roots.len()
            invariant
                i <= self.roots@.len(),
                forall|j: int| 0 <= j < i ==> texts(self.roots@)[j] != root@,
            decreases self.roots@.len() - i,
        {
            proof {
                assert(texts(self.roots@)[i as int] == self.roots@[i as int]@);
            }
            if same_text(self.roots[i].as_str(), root) {
                proof {
                    assert(texts(self.roots@).contains(root@));
                }
                return Some(i);
            }
            i += 1;
        }
        None
    }

    /// Marks a directory as swept; `false` where it was already.
    pub fn begin(&mut self, root: &str) -> (r: bool)
        ensures
            r == !old(self)@.contains(root@),
            final(self)@ == old(self)@.insert(root@),
    {
        proof {
            use_type_invariant(&*self);
        }
        if self.find(root).is_some() {
            proof {
                assert(self@ =~= old(self)@.insert(root@));
            }
            return false;
        }
        let ghost before = texts(self.roots@);
        let mut roots: Vec<String> = Vec::new();
        proof {
            assert(texts(roots@) =~= Seq::<Seq<char>>::empty());
        }
        std::mem::swap(&mut roots, &mut self.roots);
        roots.push(root.to_owned());
        proof {
            let after = texts(roots@);
            assert(after =~= before.push(root@));
            assert(after.to_set() =~= before.to_set().insert(root@)) by {
                assert forall|text: Seq<char>| after.contains(text) == (text == root@
                    || before.contains(text)) by {
                    if before.contains(text) {
                        let i = choose|i: int| 0 <= i < before.len() && before[i] == text;
                        assert(after[i] == text);
                    }
                    if text == root@ {
                        assert(after[before.len() as int] == text);
                    }
                }
            }
        }
        *self = SweptRoots { roots };
        true
    }

    /// A sweep failed: a later session tries again.
    pub fn failed(&mut self, root: &str)
        ensures
            final(self)@ == old(self)@.remove(root@),
    {
        proof {
            use_type_invariant(&*self);
        }
        match self.find(root) {
            Some(index) => {
                let ghost before = texts(self.roots@);
                let mut roots: Vec<String> = Vec::new();
                proof {
                    assert(texts(roots@) =~= Seq::<Seq<char>>::empty());
                }
                std::mem::swap(&mut roots, &mut self.roots);
                let _forgotten = roots.remove(index);
                proof {
                    let after = texts(roots@);
                    assert(after =~= before.remove(index as int));
                    assert(before[index as int] == root@);
                    assert(after.to_set() =~= before.to_set().remove(root@)) by {
                        assert forall|text: Seq<char>| after.contains(text) == (text != root@
                            && before.contains(text)) by {
                            if before.contains(text) && text != root@ {
                                let i = choose|i: int| 0 <= i < before.len() && before[i] == text;
                                let k = if i < index {
                                    i
                                } else {
                                    i - 1
                                };
                                assert(after[k] == text);
                            }
                            if after.contains(text) {
                                let i = choose|i: int| 0 <= i < after.len() && after[i] == text;
                                let k = if i < index {
                                    i
                                } else {
                                    i + 1
                                };
                                assert(before[k] == text);
                            }
                        }
                    }
                }
                *self = SweptRoots { roots };
            },
            None => {
                proof {
                    assert(self@ =~= old(self)@.remove(root@));
                }
            },
        }
    }
}

} // verus!
