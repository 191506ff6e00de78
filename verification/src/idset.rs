//! A set of identifiers, kept in the order in which they were inserted.

use vstd::prelude::*;

verus! {

/// A finite set of identifiers. It stands for the fold state of a hierarchy,
/// the set of ready issues and the set of multi-parent issues.
///
/// The identifiers are held in insertion order; `view` forgets the order.
#[derive(Debug)]
pub struct IdSet {
    items: Vec<String>,
}

impl View for IdSet {
    type V = Set<Seq<char>>;

    closed spec fn view(&self) -> Set<Seq<char>> {
        self.items.deep_view().to_set()
    }
}

/// `s` without every occurrence of `x`.
pub open spec fn without(s: Seq<Seq<char>>, x: Seq<char>) -> Seq<Seq<char>>
    decreases s.len(),
{
    if s.len() == 0 {
        s
    } else if s.last() == x {
        without(s.drop_last(), x)
    } else {
        without(s.drop_last(), x).push(s.last())
    }
}

/// The first occurrence of each element of `s`, in order.
pub open spec fn first_occurrences(s: Seq<Seq<char>>) -> Seq<Seq<char>>
    decreases s.len(),
{
    if s.len() == 0 {
        s
    } else if first_occurrences(s.drop_last()).contains(s.last()) {
        first_occurrences(s.drop_last())
    } else {
        first_occurrences(s.drop_last()).push(s.last())
    }
}

/// Taking out what does not occur changes nothing, and what is left after
/// taking out are the other elements.
pub proof fn lemma_without(s: Seq<Seq<char>>, x: Seq<char>)
    ensures
        !s.contains(x) ==> without(s, x) == s,
        without(s, x).to_set() == s.to_set().remove(x),
    decreases s.len(),
{
    if s.len() > 0 {
        let head = s.drop_last();
        lemma_without(head, x);
        assert(s =~= head.push(s.last()));
        head.lemma_push_to_set_commute(s.last());
        if !s.contains(x) {
            assert(!head.contains(x)) by {
                if head.contains(x) {
                    let k = choose|k: int| 0 <= k < head.len() && head[k] == x;
                    assert(s[k] == x);
                }
            }
            assert(s[s.len() - 1] != x);
        }
        if s.last() == x {
            assert(without(s, x).to_set() =~= s.to_set().remove(x));
        } else {
            without(head, x).lemma_push_to_set_commute(s.last());
            assert(without(s, x).to_set() =~= s.to_set().remove(x));
        }
    } else {
        assert(s.to_set() =~= Set::<Seq<char>>::empty());
        assert(without(s, x).to_set() =~= s.to_set().remove(x));
    }
}

/// Taking out one occurrence of `x` first changes nothing of what is left
/// when every occurrence is taken out.
pub proof fn lemma_without_remove(s: Seq<Seq<char>>, i: int, x: Seq<char>)
    requires
        0 <= i < s.len(),
        s[i] == x,
    ensures
        without(s.remove(i), x) == without(s, x),
    decreases s.len(),
{
    if i == s.len() - 1 {
        assert(s.remove(i) =~= s.drop_last());
    } else {
        let head = s.drop_last();
        lemma_without_remove(head, i, x);
        assert(s.remove(i).drop_last() =~= head.remove(i));
        assert(s.remove(i).last() == s.last());
    }
}

/// The first occurrences are the elements.
pub proof fn lemma_first_occurrences(s: Seq<Seq<char>>)
    ensures
        first_occurrences(s).to_set() == s.to_set(),
    decreases s.len(),
{
    if s.len() > 0 {
        let head = s.drop_last();
        lemma_first_occurrences(head);
        assert(s =~= head.push(s.last()));
        head.lemma_push_to_set_commute(s.last());
        first_occurrences(head).lemma_push_to_set_commute(s.last());
        if first_occurrences(head).contains(s.last()) {
            assert(head.to_set().contains(s.last()));
            assert(head.to_set().insert(s.last()) =~= head.to_set());
        }
    }
}

impl Default for IdSet {
    fn default() -> (s: IdSet)
        ensures
            s@ == Set::<Seq<char>>::empty(),
    {
        IdSet::new()
    }
}

impl IdSet {
    /// The members in the order in which `to_vec` lists them.
    pub closed spec fn order(&self) -> Seq<Seq<char>> {
        self.items.deep_view()
    }

    /// The empty set.
    pub fn new() -> (s: IdSet)
        ensures
            s@ == Set::<Seq<char>>::empty(),
            s.order() == Seq::<Seq<char>>::empty(),
    {
        let s = IdSet { items: Vec::new() };
        assert(s.items.deep_view() =~= Seq::<Seq<char>>::empty());
        assert(s@ =~= Set::<Seq<char>>::empty());
        s
    }

    fn position(&self, id: &String) -> (r: Option<usize>)
        ensures
            match r {
                Some(i) => i < self.items.len() && self.items[i as int]@ == id@,
                None => !self@.contains(id@),
            },
    {
        let n = self.items.len();
        let mut i: usize = 0;
        while i < n
            invariant
                n == self.items.len(),
                i <= n,
                forall|j: int| 0 <= j < i ==> self.items[j]@ != id@,
            decreases n - i,
        {
            if self.items[i] == *id {
                return Some(i);
            }
            i += 1;
        }
        assert(!self.items.deep_view().contains(id@));
        None
    }

    /// Whether `id` is a member.
    pub fn contains(&self, id: &str) -> (r: bool)
        ensures
            r == self@.contains(id@),
    {
        let key = id.to_owned();
        match self.position(&key) {
            Some(i) => {
                assert(self.items.deep_view()[i as int] == id@);
                true
            },
            None => false,
        }
    }

    /// Adds `id`. Returns whether it was new.
    pub fn insert(&mut self, id: String) -> (r: bool)
        ensures
            final(self)@ == old(self)@.insert(id@),
            r == !old(self)@.contains(id@),
            final(self).order() == if r {
                old(self).order().push(id@)
            } else {
                old(self).order()
            },
    {
        match self.position(&id) {
            Some(i) => {
                assert(self.items.deep_view()[i as int] == id@);
                assert(self@ =~= self@.insert(id@));
                false
            },
            None => {
                let ghost before = self.items.deep_view();
                let ghost key = id@;
                proof {
                    assert(forall|v: Vec<String>|
                        v@ == self.items@.push(id) ==> #[trigger] v.deep_view() =~= before.push(
                            key,
                        ));
                }
                self.items.push(id);
                proof {
                    before.lemma_push_to_set_commute(key);
                }
                true
            },
        }
    }

    /// Takes `id` out. Returns whether it was a member.
    pub fn remove(&mut self, id: &str) -> (r: bool)
        ensures
            final(self)@ == old(self)@.remove(id@),
            final(self).order() == without(old(self).order(), id@),
            r == old(self)@.contains(id@),
    {
        let key = id.to_owned();
        let ghost start = self.items.deep_view();
        let mut found = false;
        let mut i: usize = 0;
        while i < self.items.len()
            invariant
                i <= self.items.len(),
                key@ == id@,
                forall|j: int| 0 <= j < i ==> self.items[j]@ != id@,
                without(self.items.deep_view(), id@) == without(start, id@),
                found ==> start.contains(id@),
                !found ==> self.items.deep_view() == start,
            decreases self.items.len() - i,
        {
            if self.items[i] == key {
                let ghost before = self.items.deep_view();
                proof {
                    assert(before[i as int] == id@);
                    assert(before.contains(id@));
                    lemma_without_remove(before, i as int, id@);
                    assert(forall|v: Vec<String>|
                        v@ == self.items@.remove(i as int) ==> #[trigger] v.deep_view()
                            =~= before.remove(i as int));
                }
                let _ = self.items.remove(i);
                found = true;
            } else {
                i += 1;
            }
        }
        proof {
            let now = self.items.deep_view();
            assert(!now.contains(id@));
            lemma_without(now, id@);
            lemma_without(start, id@);
            if !found {
                assert(!start.contains(id@));
            }
        }
        found
    }

    /// Takes every member out.
    pub fn clear(&mut self)
        ensures
            final(self)@ == Set::<Seq<char>>::empty(),
            final(self).order() == Seq::<Seq<char>>::empty(),
    {
        proof {
            assert(forall|v: Vec<String>|
                v@ == Seq::<String>::empty() ==> #[trigger] v.deep_view() =~= Seq::<
                    Seq<char>,
                >::empty());
        }
        self.items.clear();
        assert(self@ =~= Set::<Seq<char>>::empty());
    }

    /// Whether the set has no member.
    pub fn is_empty(&self) -> (r: bool)
        ensures
            r == (self@ == Set::<Seq<char>>::empty()),
            r == (self.order().len() == 0),
    {
        let r = self.items.len() == 0;
        proof {
            if r {
                assert(self@ =~= Set::<Seq<char>>::empty());
            } else {
                assert(self.items.deep_view().contains(self.items.deep_view()[0]));
                assert(self@.contains(self.items.deep_view()[0]));
            }
        }
        r
    }

    /// The members in insertion order.
    pub fn to_vec(&self) -> (v: Vec<String>)
        ensures
            v.deep_view() == self.order(),
            v.deep_view().to_set() == self@,
    {
        let n = self.items.len();
        let mut v: Vec<String> = Vec::new();
        let mut i: usize = 0;
        while i < n
            invariant
                n == self.items.len(),
                i <= n,
                v.len() == i,
                forall|j: int| 0 <= j < i ==> v[j]@ == self.items[j]@,
            decreases n - i,
        {
            v.push(self.items[i].clone());
            i += 1;
        }
        assert(v.deep_view() =~= self.items.deep_view());
        v
    }

    /// The set of the identifiers that `ids` lists, first occurrences first.
    pub fn from_vec(ids: Vec<String>) -> (s: IdSet)
        ensures
            s@ == ids.deep_view().to_set(),
            s.order() == first_occurrences(ids.deep_view()),
    {
        let mut s = IdSet::new();
        let n = ids.len();
        let mut i: usize = 0;
        while i < n
            invariant
                n == ids.len(),
                i <= n,
                s@ == ids.deep_view().subrange(0, i as int).to_set(),
                s.order() == first_occurrences(ids.deep_view().subrange(0, i as int)),
                s.order().to_set() == s@,
            decreases n - i,
        {
            let ghost done = ids.deep_view().subrange(0, i as int);
            let ghost upto = ids.deep_view().subrange(0, i + 1);
            proof {
                assert(upto =~= done.push(ids[i as int]@));
                assert(upto.drop_last() =~= done);
                done.lemma_push_to_set_commute(ids[i as int]@);
                lemma_first_occurrences(upto);
            }
            s.insert(ids[i].clone());
            i += 1;
        }
        assert(ids.deep_view().subrange(0, n as int) =~= ids.deep_view());
        s
    }

    /// A copy with the same members in the same order.
    pub fn duplicate(&self) -> (s: IdSet)
        ensures
            s@ == self@,
            s.order() == self.order(),
    {
        let items = self.to_vec();
        IdSet { items }
    }
}

} // verus!
