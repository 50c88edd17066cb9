//! The ARIA properties of a node: a finite map from names to values.

use vstd::prelude::*;
use crate::text::str_eq;
use vstd::std_specs::cmp::PartialEqSpecImpl;

verus! {

/// The map that a list of (name, value) pairs describes; a later pair wins.
pub open spec fn pairs_map(s: Seq<(String, String)>) -> Map<Seq<char>, Seq<char>>
    decreases s.len(),
{
    if s.len() == 0 {
        Map::empty()
    } else {
        pairs_map(s.drop_last()).insert(s.last().0@, s.last().1@)
    }
}

/// No name occurs twice in `s`.
pub open spec fn names_distinct(s: Seq<(String, String)>) -> bool {
    forall|i: int, j: int| 0 <= i < j < s.len() ==> s[i].0@ != s[j].0@
}

/// Properties of an element (such as `url` or `placeholder`), each name
/// bound to one value.
#[derive(Debug)]
pub struct Props {
    entries: Vec<(String, String)>,
}

impl View for Props {
    type V = Map<Seq<char>, Seq<char>>;

    closed spec fn view(&self) -> Map<Seq<char>, Seq<char>> {
        pairs_map(self.entries@)
    }
}

/// The names of `pairs_map(s)` are those of the pairs of `s`.
pub proof fn lemma_pairs_map_dom(s: Seq<(String, String)>)
    ensures
        pairs_map(s).dom().finite(),
        forall|k: Seq<char>| #[trigger] pairs_map(s).contains_key(k) <==> exists|i: int|
            0 <= i < s.len() && s[i].0@ == k,
    decreases s.len(),
{
    if s.len() > 0 {
        lemma_pairs_map_dom(s.drop_last());
        assert forall|k: Seq<char>| #[trigger] pairs_map(s).contains_key(k) implies exists|i: int|
            0 <= i < s.len() && s[i].0@ == k by {
            if k != s.last().0@ {
                let i = choose|i: int| 0 <= i < s.drop_last().len() && s.drop_last()[i].0@ == k;
                assert(s[i].0@ == k);
            } else {
                assert(s[s.len() - 1].0@ == k);
            }
        }
        assert forall|k: Seq<char>|
            (exists|i: int| 0 <= i < s.len() && s[i].0@ == k) implies #[trigger] pairs_map(
            s,
        ).contains_key(k) by {
            let i = choose|i: int| 0 <= i < s.len() && s[i].0@ == k;
            if i < s.len() - 1 {
                assert(s.drop_last()[i].0@ == k);
            }
        }
    }
}

/// With distinct names, the value of the name at position `i` is its value
/// in the map, and the map has as many names as there are pairs.
pub proof fn lemma_pairs_map_at(s: Seq<(String, String)>)
    requires
        names_distinct(s),
    ensures
        forall|i: int| 0 <= i < s.len() ==> #[trigger] pairs_map(s)[s[i].0@] == s[i].1@,
        pairs_map(s).dom().len() == s.len(),
    decreases s.len(),
{
    if s.len() > 0 {
        let t = s.drop_last();
        assert(names_distinct(t));
        lemma_pairs_map_at(t);
        lemma_pairs_map_dom(t);
        assert(!pairs_map(t).contains_key(s.last().0@)) by {
            if pairs_map(t).contains_key(s.last().0@) {
                let i = choose|i: int| 0 <= i < t.len() && t[i].0@ == s.last().0@;
                assert(s[i].0@ == s[s.len() - 1].0@);
            }
        }
        assert forall|i: int| 0 <= i < s.len() implies #[trigger] pairs_map(s)[s[i].0@]
            == s[i].1@ by {
            if i < s.len() - 1 {
                assert(t[i] == s[i]);
                assert(s[i].0@ != s[s.len() - 1].0@);
            }
        }
    }
}

impl Props {
    #[verifier::type_invariant]
    closed spec fn names_unique(self) -> bool {
        names_distinct(self.entries@)
    }

    /// A finite map.
    pub proof fn lemma_finite(&self)
        ensures
            self@.dom().finite(),
    {
        lemma_pairs_map_dom(self.entries@);
    }

    /// No properties.
    pub fn new() -> (r: Props)
        ensures
            r@ == Map::<Seq<char>, Seq<char>>::empty(),
    {
        Props { entries: Vec::new() }
    }

    /// The position of the pair named `name`, if there is one.
    fn position(&self, name: &str) -> (r: Option<usize>)
        ensures
            match r {
                Some(i) => i < self.entries@.len() && self.entries@[i as int].0@ == name@,
                None => forall|i: int|
                    0 <= i < self.entries@.len() ==> self.entries@[i].0@ != name@,
            },
    {
        let mut i: usize = 0;
        while i < self.entries.len()
            invariant
                i <= self.entries@.len(),
                forall|j: int| 0 <= j < i ==> self.entries@[j].0@ != name@,
            decreases self.entries.len() - i,
        {
            if str_eq(self.entries[i].0.as_str(), name) {
                return Some(i);
            }
            i = i + 1;
        }
        None
    }

    /// The value of the property `name`.
    pub fn get(&self, name: &str) -> (r: Option<&String>)
        ensures
            match r {
                Some(v) => self@.contains_key(name@) && self@[name@] == v@,
                None => !self@.contains_key(name@),
            },
    {
        proof {
            use_type_invariant(self);
            lemma_pairs_map_dom(self.entries@);
            lemma_pairs_map_at(self.entries@);
        }
        match self.position(name) {
            Some(i) => Some(&self.entries[i].1),
            None => None,
        }
    }

    /// The number of properties.
    pub fn len(&self) -> (r: usize)
        ensures
            r == self@.dom().len(),
    {
        proof {
            use_type_invariant(self);
            lemma_pairs_map_at(self.entries@);
        }
        self.entries.len()
    }

    /// Binds `name` to `value`, replacing an earlier value of `name`.
    pub fn insert(&mut self, name: String, value: String)
        ensures
            final(self)@ == old(self)@.insert(name@, value@),
    {
        proof {
            use_type_invariant(&*self);
            lemma_pairs_map_dom(self.entries@);
            lemma_pairs_map_at(self.entries@);
        }
        let ghost before = self.entries@;
        match self.position(name.as_str()) {
            Some(i) => {
                let mut entries: Vec<(String, String)> = Vec::new();
                std::mem::swap(&mut entries, &mut self.entries);
                entries.set(i, (name, value));
                proof {
                    let after = entries@;
                    assert(names_distinct(after));
                    lemma_pairs_map_dom(after);
                    lemma_pairs_map_at(after);
                    assert forall|k: Seq<char>| #[trigger] pairs_map(after).contains_key(k)
                        <==> pairs_map(before).insert(name@, value@).contains_key(k) by {
                        if pairs_map(after).contains_key(k) {
                            let j = choose|j: int| 0 <= j < after.len() && after[j].0@ == k;
                            if j != i {
                                assert(before[j] == after[j]);
                            }
                        }
                        if pairs_map(before).contains_key(k) && k != name@ {
                            let j = choose|j: int| 0 <= j < before.len() && before[j].0@ == k;
                            assert(j != i);
                            assert(before[j] == after[j]);
                        }
                        if k == name@ {
                            assert(after[i as int].0@ == k);
                        }
                    }
                    assert forall|k: Seq<char>| #[trigger] pairs_map(after).contains_key(k)
                        implies pairs_map(after)[k] == pairs_map(before).insert(name@, value@)[k] by {
                        let j = choose|j: int| 0 <= j < after.len() && after[j].0@ == k;
                        if j != i {
                            assert(before[j] == after[j]);
                        }
                    }
                    assert(pairs_map(after) =~= pairs_map(before).insert(name@, value@));
                }
                self.entries = entries;
            },
            None => {
                let mut entries: Vec<(String, String)> = Vec::new();
                std::mem::swap(&mut entries, &mut self.entries);
                entries.push((name, value));
                assert(entries@.drop_last() == before);
                self.entries = entries;
            },
        }
    }

    /// The (name, value) pairs, each name once.
    pub fn pairs(&self) -> (r: &[(String, String)])
        ensures
            pairs_map(r@) == self@,
            names_distinct(r@),
    {
        proof {
            use_type_invariant(self);
        }
        self.entries.as_slice()
    }
}

impl Props {
    /// Whether both hold the same names bound to the same values, in
    /// whatever order they were bound.
    pub fn same_as(&self, other: &Props) -> (r: bool)
        ensures
            r == (self@ == other@),
    {
        proof {
            use_type_invariant(self);
            use_type_invariant(other);
            self.lemma_finite();
            other.lemma_finite();
            lemma_pairs_map_at(self.entries@);
            lemma_pairs_map_at(other.entries@);
            lemma_pairs_map_dom(self.entries@);
        }
        if self.entries.len() != other.entries.len() {
            return false;
        }
        let pairs = &self.entries;
        let mut i: usize = 0;
        while i < pairs.len()
            invariant
                i <= pairs@.len(),
                pairs@ == self.entries@,
                forall|j: int| 0 <= j < pairs@.len() ==> #[trigger] self@[pairs@[j].0@] == pairs@[j].1@,
                forall|j: int| 0 <= j < pairs@.len() ==> self@.contains_key(#[trigger] pairs@[j].0@),
                forall|j: int| 0 <= j < i ==> other@.contains_key(#[trigger] pairs@[j].0@)
                    && other@[pairs@[j].0@] == pairs@[j].1@,
            decreases pairs.len() - i,
        {
            proof {
                assert(self@.contains_key(pairs@[i as int].0@));
            }
            match other.get(pairs[i].0.as_str()) {
                Some(v) => {
                    if !str_eq(v.as_str(), pairs[i].1.as_str()) {
                        assert(self@[pairs@[i as int].0@] != other@[pairs@[i as int].0@]);
                        return false;
                    }
                },
                None => {
                    return false;
                },
            }
            i = i + 1;
        }
        proof {
            assert forall|k: Seq<char>| #[trigger] self@.contains_key(k) implies other@.contains_key(k)
                && other@[k] == self@[k] by {
                let j = choose|j: int| 0 <= j < pairs@.len() && pairs@[j].0@ == k;
                assert(self@[pairs@[j].0@] == pairs@[j].1@);
            }
            lemma_same_size_submap(self@, other@);
        }
        true
    }
}

/// Lists of pairs with the same names and values, position by position,
/// describe the same map.
proof fn lemma_pairs_map_same_views(a: Seq<(String, String)>, b: Seq<(String, String)>)
    requires
        a.len() == b.len(),
        forall|j: int| 0 <= j < a.len() ==> a[j].0@ == b[j].0@ && a[j].1@ == b[j].1@,
    ensures
        pairs_map(a) == pairs_map(b),
    decreases a.len(),
{
    if a.len() > 0 {
        lemma_pairs_map_same_views(a.drop_last(), b.drop_last());
    }
}

impl Clone for Props {
    /// A copy with the same bindings.
    fn clone(&self) -> (r: Props)
        ensures
            r@ == self@,
    {
        proof {
            use_type_invariant(self);
        }
        let mut entries: Vec<(String, String)> = Vec::new();
        let mut i: usize = 0;
        while i < self.entries.len()
            invariant
                i <= self.entries@.len(),
                entries@.len() == i,
                names_distinct(self.entries@),
                forall|j: int|
                    0 <= j < i ==> (#[trigger] entries@[j]).0@ == self.entries@[j].0@
                        && entries@[j].1@ == self.entries@[j].1@,
            decreases self.entries.len() - i,
        {
            let k = String::from_str(self.entries[i].0.as_str());
            let v = String::from_str(self.entries[i].1.as_str());
            entries.push((k, v));
            i = i + 1;
        }
        proof {
            lemma_pairs_map_same_views(entries@, self.entries@);
            assert forall|a: int, b: int| 0 <= a < b < entries@.len() implies entries@[a].0@
                != entries@[b].0@ by {
                assert(self.entries@[a].0@ != self.entries@[b].0@);
            }
        }
        Props { entries }
    }
}

impl PartialEq for Props {
    fn eq(&self, other: &Props) -> (r: bool) {
        self.same_as(other)
    }
}

impl PartialEqSpecImpl for Props {
    open spec fn obeys_eq_spec() -> bool {
        true
    }

    open spec fn eq_spec(&self, other: &Props) -> bool {
        self@ == other@
    }
}

/// Two maps of properties with as many names as each other, where each
/// binding of the first is one of the second, are equal.
pub proof fn lemma_same_size_submap(a: Map<Seq<char>, Seq<char>>, b: Map<Seq<char>, Seq<char>>)
    requires
        a.dom().finite(),
        b.dom().finite(),
        a.dom().len() == b.dom().len(),
        forall|k: Seq<char>| #[trigger] a.contains_key(k) ==> b.contains_key(k) && b[k] == a[k],
    ensures
        a == b,
{
    assert(a.dom().subset_of(b.dom()));
    vstd::set_lib::lemma_subset_equality(a.dom(), b.dom());
    assert(a =~= b);
}

/// Reading a property back after binding it gives the bound value; every
/// other property keeps what it had.
pub proof fn lemma_get_after_insert(
    m: Map<Seq<char>, Seq<char>>,
    name: Seq<char>,
    value: Seq<char>,
    other: Seq<char>,
)
    ensures
        m.insert(name, value).contains_key(name),
        m.insert(name, value)[name] == value,
        other != name ==> m.insert(name, value).contains_key(other) == m.contains_key(other),
        other != name && m.contains_key(other) ==> m.insert(name, value)[other] == m[other],
{
}

} // verus!
