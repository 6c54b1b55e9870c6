//! A duplicate-free set of role names, stored as a vector of byte strings
//! and viewed as a `Set<Seq<u8>>`. The engine keeps one per account and
//! one per call, each capacity-checked by its caller against the
//! configured limit.

use vstd::prelude::*;

verus! {

/// Compares two role names byte for byte.
pub fn name_eq(a: &Vec<u8>, b: &Vec<u8>) -> (r: bool)
    ensures
        r == (a@ == b@),
{
    if a.len() != b.len() {
        return false;
    }
    let n = a.len();
    let mut k: usize = 0;
    while k < n
        invariant
            n == a@.len() && n == b@.len(),
            k <= n,
            forall|j: int| 0 <= j < k ==> a@[j] == b@[j],
        decreases n - k,
    {
        if a[k] != b[k] {
            return false;
        }
        k += 1;
    }
    proof {
        assert(a@ =~= b@);
    }
    true
}

/// A set of role names with no duplicates.
pub struct RoleSet {
    elems: Vec<Vec<u8>>,
}

impl View for RoleSet {
    type V = Set<Seq<u8>>;

    closed spec fn view(&self) -> Set<Seq<u8>> {
        self.names().to_set()
    }
}

impl RoleSet {
    /// The stored names, in storage order.
    pub closed spec fn names(self) -> Seq<Seq<u8>> {
        self.elems@.map_values(|e: Vec<u8>| e@)
    }

    /// No name is stored twice.
    pub closed spec fn wf(self) -> bool {
        self.names().no_duplicates()
    }

    /// The set a well-formed value denotes is finite and exactly as large
    /// as its storage.
    pub proof fn lemma_card(self)
        requires
            self.wf(),
        ensures
            self@.finite(),
            self@.len() == self.names().len(),
    {
        self.names().unique_seq_to_set();
    }

    /// Membership in the set is membership among the stored names.
    pub proof fn lemma_view_names(self)
        ensures
            forall|x: Seq<u8>| self@.contains(x) <==> self.names().contains(x),
    {
    }

    /// An empty set.
    pub fn new() -> (s: RoleSet)
        ensures
            s@ == Set::<Seq<u8>>::empty(),
            s.wf(),
            s.names().len() == 0,
    {
        let s = RoleSet { elems: Vec::new() };
        proof {
            assert(s.names() =~= Seq::<Seq<u8>>::empty());
            assert(s@ =~= Set::<Seq<u8>>::empty());
        }
        s
    }

    /// How many names are stored; for a well-formed value, the size of the
    /// set.
    pub fn len(&self) -> (n: usize)
        ensures
            n == self.names().len(),
            self.wf() ==> n == self@.len(),
    {
        proof {
            if self.wf() {
                self.lemma_card();
            }
        }
        self.elems.len()
    }

    /// The name stored at position `i`.
    pub fn index_at(&self, i: usize) -> (r: &Vec<u8>)
        requires
            i < self.names().len(),
        ensures
            r@ == self.names()[i as int],
    {
        &self.elems[i]
    }

    /// Whether `name` is in the set.
    pub fn contains(&self, name: &Vec<u8>) -> (r: bool)
        ensures
            r == self@.contains(name@),
    {
        let n = self.elems.len();
        let mut i: usize = 0;
        while i < n
            invariant
                n == self.elems@.len(),
                i <= n,
                forall|j: int| 0 <= j < i ==> self.names()[j] != name@,
            decreases n - i,
        {
            if name_eq(&self.elems[i], name) {
                proof {
                    assert(self.names()[i as int] == name@);
                    assert(self.names().contains(name@));
                }
                return true;
            }
            i += 1;
        }
        proof {
            assert(!self.names().contains(name@));
        }
        false
    }

    /// Adds a name not yet present.
    pub fn insert(&mut self, name: Vec<u8>)
        requires
            old(self).wf(),
            !old(self)@.contains(name@),
        ensures
            final (self).wf(),
            final (self)@ == old(self)@.insert(name@),
            final (self).names() == old(self).names().push(name@),
    {
        proof {
            assert(!old(self).names().contains(name@));
        }
        let ghost old_names = self.names();
        self.elems.push(name);
        proof {
            assert(self.names() =~= old_names.push(name@));
            assert forall|p: int, q: int|
                0 <= p < q < self.names().len() implies self.names()[p] != self.names()[q] by {
                if q == self.names().len() - 1 {
                    assert(old_names[p] != name@);
                }
            }
            assert forall|x: Seq<u8>| self.names().to_set().contains(x) implies old(
                self,
            )@.insert(name@).contains(x) by {
                let j = choose|j: int| 0 <= j < self.names().len() && self.names()[j] == x;
                if j < old_names.len() {
                    assert(old_names[j] == x);
                    assert(old_names.contains(x));
                }
            }
            assert forall|x: Seq<u8>| old(self)@.insert(name@).contains(x)
                implies self.names().to_set().contains(x) by {
                if old(self)@.contains(x) {
                    let j = choose|j: int| 0 <= j < old_names.len() && old_names[j] == x;
                    assert(self.names()[j] == x);
                } else {
                    assert(self.names()[old_names.len() as int] == x);
                }
                assert(self.names().contains(x));
            }
            assert(self@ =~= old(self)@.insert(name@));
        }
    }

    /// Removes a name that is present.
    pub fn remove(&mut self, name: &Vec<u8>)
        requires
            old(self).wf(),
            old(self)@.contains(name@),
        ensures
            final (self).wf(),
            final (self)@ == old(self)@.remove(name@),
    {
        let ghost old_names = self.names();
        let n = self.elems.len();
        let mut i: usize = 0;
        while i < n
            invariant
                n == self.elems@.len(),
                i <= n,
                forall|j: int| 0 <= j < i ==> self.names()[j] != name@,
                *self == *old(self),
                old_names == self.names(),
                old_names.no_duplicates(),
            decreases n - i,
        {
            if name_eq(&self.elems[i], name) {
                proof {
                    assert(old_names[i as int] == name@);
                }
                self.elems.remove(i);
                proof {
                    let ghost new_names = self.names();
                    assert(new_names =~= old_names.remove(i as int));
                    assert forall|p: int, q: int|
                        0 <= p < q < new_names.len() implies new_names[p] != new_names[q] by {
                        let p0 = if p < i as int { p } else { p + 1 };
                        let q0 = if q < i as int { q } else { q + 1 };
                        assert(new_names[p] == old_names[p0] && new_names[q] == old_names[q0]);
                    }
                    assert forall|x: Seq<u8>| new_names.to_set().contains(x) implies old_names.to_set().remove(
                        name@,
                    ).contains(x) by {
                        let j = choose|j: int| 0 <= j < new_names.len() && new_names[j] == x;
                        let j0 = if j < i as int { j } else { j + 1 };
                        assert(old_names[j0] == x);
                        assert(old_names[j0] != old_names[i as int]);
                    }
                    assert forall|x: Seq<u8>| old_names.to_set().remove(name@).contains(x)
                        implies new_names.to_set().contains(x) by {
                        let j0 = choose|j0: int| 0 <= j0 < old_names.len() && old_names[j0] == x;
                        let j = if j0 < i as int { j0 } else { j0 - 1 };
                        assert(new_names[j] == x);
                        assert(new_names.contains(x));
                    }
                    assert(self@ =~= old(self)@.remove(name@));
                }
                return ;
            }
            i += 1;
        }
        proof {
            assert(!old_names.contains(name@));
            assert(false);
        }
    }
}

} // verus!
