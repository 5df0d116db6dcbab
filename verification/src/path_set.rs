//! Sets of relative paths.

use vstd::hash_set::StringHashSet;
use vstd::prelude::*;

verus! {

/// The views of the texts.
pub open spec fn text_views(texts: Seq<String>) -> Seq<Seq<char>> {
    texts.map_values(|text: String| text@)
}

/// A set of paths, each written as text. It can be searched and listed.
pub struct PathSet {
    index: StringHashSet,
    listed: Vec<String>,
}

impl View for PathSet {
    type V = Set<Seq<char>>;

    closed spec fn view(&self) -> Set<Seq<char>> {
        self.index@
    }
}

impl PathSet {
    /// Every path of the set is listed, once.
    pub closed spec fn wf(&self) -> bool {
        &&& text_views(self.listed@).no_duplicates()
        &&& text_views(self.listed@).to_set() == self.index@
    }

    /// The empty set.
    pub fn new() -> (r: Self)
        ensures
            r.wf(),
            r@ == Set::<Seq<char>>::empty(),
    {
        let listed: Vec<String> = Vec::new();
        let r = PathSet { index: StringHashSet::new(), listed };
        assert(text_views(r.listed@) =~= Seq::<Seq<char>>::empty());
        assert(text_views(r.listed@).to_set() =~= Set::<Seq<char>>::empty());
        r
    }

    /// The number of paths in the set.
    pub fn len(&self) -> (n: usize)
        requires
            self.wf(),
        ensures
            n == self@.len(),
    {
        proof {
            text_views(self.listed@).unique_seq_to_set();
        }
        self.listed.len()
    }

    /// Whether the path is in the set.
    pub fn contains(&self, path: &str) -> (r: bool)
        ensures
            r == self@.contains(path@),
    {
        self.index.contains(path)
    }

    /// Adds the path to the set.
    pub fn insert(&mut self, path: String)
        requires
            old(self).wf(),
        ensures
            final(self).wf(),
            final(self)@ == old(self)@.insert(path@),
    {
        let ghost before = text_views(self.listed@);
        let ghost name = path@;
        if !self.index.contains(path.as_str()) {
            let copy = path.clone();
            self.index.insert(copy);
            self.listed.push(path);
            let ghost after = text_views(self.listed@);
            proof {
                assert(after =~= before.push(name));
                assert(!before.to_set().contains(name));
                assert(!before.contains(name));
                assert(after.no_duplicates()) by {
                    assert forall|i: int, j: int|
                        0 <= i < after.len() && 0 <= j < after.len() && i != j implies after[i]
                        != after[j] by {
                        if i < before.len() {
                            assert(before.contains(before[i]));
                        }
                        if j < before.len() {
                            assert(before.contains(before[j]));
                        }
                    }
                }
                assert(after.to_set() =~= before.to_set().insert(name)) by {
                    assert forall|x: Seq<char>|
                        after.to_set().contains(x) <==> before.to_set().insert(name).contains(x) by {
                        if before.contains(x) {
                            let i = choose|i: int| 0 <= i < before.len() && before[i] == x;
                            assert(after[i] == x);
                        }
                        assert(after[before.len() as int] == name);
                    }
                }
            }
        } else {
            assert(old(self)@.insert(name) =~= old(self)@);
        }
    }

    /// Takes the path out of the set.
    pub fn remove(&mut self, path: &str)
        requires
            old(self).wf(),
        ensures
            final(self).wf(),
            final(self)@ == old(self)@.remove(path@),
    {
        if !self.index.contains(path) {
            assert(old(self)@.remove(path@) =~= old(self)@);
            return;
        }
        let ghost before = text_views(self.listed@);
        let ghost listed = self.listed@;
        assert(before.to_set().contains(path@));
        assert(before.contains(path@));
        let wanted = path.to_owned();
        let mut i: usize = 0;
        while i < self.listed.len() && !(self.listed[i] == wanted)
            invariant
                wanted@ == path@,
                i <= self.listed@.len(),
                self.listed@ == listed,
                before == text_views(listed),
                forall|k: int| 0 <= k < i ==> before[k] != path@,
            decreases self.listed@.len() - i,
        {
            assert(before[i as int] == listed[i as int]@);
            i = i + 1;
        }
        assert(i < self.listed@.len()) by {
            let k = choose|k: int| 0 <= k < before.len() && before[k] == path@;
            assert(before[k] == path@);
        }
        self.listed.remove(i);
        self.index.remove(path);
        let ghost after = text_views(self.listed@);
        proof {
            assert(after =~= before.remove(i as int));
            assert(before[i as int] == listed[i as int]@);
            assert forall|x: Seq<char>|
                after.to_set().contains(x) <==> before.to_set().remove(path@).contains(x) by {
                if after.contains(x) {
                    let k = choose|k: int| 0 <= k < after.len() && after[k] == x;
                    let j = if k < i { k } else { k + 1 };
                    assert(before[j] == x);
                    assert(x != path@);
                }
                if before.contains(x) && x != path@ {
                    let j = choose|j: int| 0 <= j < before.len() && before[j] == x;
                    let k = if j < i { j } else { j - 1 };
                    assert(after[k] == x);
                }
            }
            assert(after.to_set() =~= before.to_set().remove(path@));
        }
    }

    /// Takes every path out of the set.
    pub fn clear(&mut self)
        ensures
            final(self).wf(),
            final(self)@ == Set::<Seq<char>>::empty(),
    {
        self.index.clear();
        self.listed.clear();
        assert(text_views(self.listed@) =~= Seq::<Seq<char>>::empty());
        assert(text_views(self.listed@).to_set() =~= Set::<Seq<char>>::empty());
    }

    /// The paths of the set, each once.
    pub fn to_vec(&self) -> (r: Vec<String>)
        requires
            self.wf(),
        ensures
            text_views(r@).no_duplicates(),
            text_views(r@).to_set() == self@,
    {
        let mut r: Vec<String> = Vec::new();
        let mut i: usize = 0;
        while i < self.listed.len()
            invariant
                i <= self.listed@.len(),
                r@ =~= self.listed@.take(i as int),
            decreases self.listed@.len() - i,
        {
            r.push(self.listed[i].clone());
            i = i + 1;
        }
        assert(r@ =~= self.listed@);
        r
    }
}

} // verus!
