//! An owned string-to-string parameter mapping.
//!
//! `Params` stores its entries as a vector of key/value pairs with pairwise
//! distinct keys and is specified through its view, a `Map<Seq<char>,
//! Seq<char>>`.

use vstd::prelude::*;

verus! {

/// The mapping described by a sequence of key/value pairs, read left to
/// right: a later pair with the same key overrides an earlier one.
pub open spec fn map_of_pairs(s: Seq<(String, String)>) -> Map<Seq<char>, Seq<char>>
    decreases s.len(),
{
    if s.len() == 0 {
        Map::empty()
    } else {
        map_of_pairs(s.drop_last()).insert(s.last().0@, s.last().1@)
    }
}

/// No two pairs of the sequence share a key.
pub open spec fn distinct_keys(s: Seq<(String, String)>) -> bool {
    forall|i: int, j: int| 0 <= i < j < s.len() ==> s[i].0@ != s[j].0@
}

/// The mapping described by a pair sequence has a finite domain.
pub proof fn lemma_map_of_pairs_finite(s: Seq<(String, String)>)
    ensures
        map_of_pairs(s).dom().finite(),
    decreases s.len(),
{
    if s.len() > 0 {
        lemma_map_of_pairs_finite(s.drop_last());
    }
}

/// A key is in the mapping described by a pair sequence exactly when some
/// pair of the sequence carries it.
pub proof fn lemma_map_of_pairs_contains(s: Seq<(String, String)>, k: Seq<char>)
    ensures
        map_of_pairs(s).contains_key(k) <==> exists|i: int|
            0 <= i < s.len() && #[trigger] s[i].0@ == k,
    decreases s.len(),
{
    if s.len() > 0 {
        let sub = s.drop_last();
        lemma_map_of_pairs_contains(sub, k);
        if map_of_pairs(s).contains_key(k) && s.last().0@ != k {
            let i = choose|i: int| 0 <= i < sub.len() && #[trigger] sub[i].0@ == k;
            assert(s[i].0@ == k);
        }
        if exists|i: int| 0 <= i < s.len() && #[trigger] s[i].0@ == k {
            let i = choose|i: int| 0 <= i < s.len() && #[trigger] s[i].0@ == k;
            if i < s.len() - 1 {
                assert(sub[i].0@ == k);
            }
        }
    }
}

/// With distinct keys, each pair's value is the one the described mapping
/// assigns to the pair's key.
pub proof fn lemma_map_of_pairs_get(s: Seq<(String, String)>, i: int)
    requires
        distinct_keys(s),
        0 <= i < s.len(),
    ensures
        map_of_pairs(s).contains_key(s[i].0@),
        map_of_pairs(s)[s[i].0@] == s[i].1@,
    decreases s.len(),
{
    if i < s.len() - 1 {
        let sub = s.drop_last();
        assert(sub[i] == s[i]);
        lemma_map_of_pairs_get(sub, i);
        assert(s[i].0@ != s.last().0@);
    }
}

/// With distinct keys, the described mapping has one entry per pair.
pub proof fn lemma_map_of_pairs_len(s: Seq<(String, String)>)
    requires
        distinct_keys(s),
    ensures
        map_of_pairs(s).dom().len() == s.len(),
    decreases s.len(),
{
    broadcast use vstd::set::axiom_set_insert_len;

    if s.len() > 0 {
        let sub = s.drop_last();
        lemma_map_of_pairs_len(sub);
        lemma_map_of_pairs_finite(sub);
        lemma_map_of_pairs_contains(sub, s.last().0@);
        if map_of_pairs(sub).contains_key(s.last().0@) {
            let i = choose|i: int| 0 <= i < sub.len() && #[trigger] sub[i].0@ == s.last().0@;
            assert(s[i].0@ == s[s.len() - 1].0@);
            assert(false);
        }
    }
}

/// Overwriting the one pair that carries a key by a new pair with the same
/// key overrides exactly that key's binding.
proof fn lemma_map_of_pairs_update(s: Seq<(String, String)>, i: int, p: (String, String))
    requires
        distinct_keys(s),
        0 <= i < s.len(),
        s[i].0@ == p.0@,
    ensures
        distinct_keys(s.update(i, p)),
        map_of_pairs(s.update(i, p)) == map_of_pairs(s).insert(p.0@, p.1@),
    decreases s.len(),
{
    let u = s.update(i, p);
    assert forall|a: int, b: int| 0 <= a < b < u.len() implies u[a].0@ != u[b].0@ by {
        assert(u[a].0@ == s[a].0@ && u[b].0@ == s[b].0@);
    }
    if i == s.len() - 1 {
        assert(u.drop_last() =~= s.drop_last());
        assert(map_of_pairs(s.drop_last()).insert(s.last().0@, s.last().1@).insert(p.0@, p.1@)
            =~= map_of_pairs(s.drop_last()).insert(p.0@, p.1@));
    } else {
        let sub = s.drop_last();
        assert(u.drop_last() =~= sub.update(i, p));
        assert(sub[i] == s[i]);
        lemma_map_of_pairs_update(sub, i, p);
        assert(s.last().0@ != p.0@);
        assert(map_of_pairs(sub).insert(p.0@, p.1@).insert(s.last().0@, s.last().1@)
            =~= map_of_pairs(sub).insert(s.last().0@, s.last().1@).insert(p.0@, p.1@));
        assert(u.last() == s.last());
    }
}

/// An owned string-to-string parameter mapping, as extracted from a route
/// pattern (for example `{"id": "42"}` from `/users/{id}`).
#[derive(Debug)]
pub struct Params {
    pairs: Vec<(String, String)>,
}

impl View for Params {
    type V = Map<Seq<char>, Seq<char>>;

    closed spec fn view(&self) -> Map<Seq<char>, Seq<char>> {
        map_of_pairs(self.pairs@)
    }
}

impl Params {
    /// The stored pairs never repeat a key, so the pair count is the size of
    /// the mapping.
    #[verifier::type_invariant]
    spec fn inv(self) -> bool {
        distinct_keys(self.pairs@)
    }

    /// An empty mapping.
    pub fn new() -> (r: Params)
        ensures
            r@ == Map::<Seq<char>, Seq<char>>::empty(),
    {
        Params { pairs: Vec::new() }
    }

    /// The number of entries of the mapping.
    pub fn len(&self) -> (n: usize)
        ensures
            n == self@.len(),
    {
        proof {
            use_type_invariant(self);
            lemma_map_of_pairs_len(self.pairs@);
        }
        self.pairs.len()
    }

    /// The index of the pair carrying `key`, if any.
    fn index_of(&self, key: &String) -> (r: Option<usize>)
        ensures
            match r {
                Some(i) => i < self.pairs@.len() && self.pairs@[i as int].0@ == key@,
                None => forall|j: int|
                    0 <= j < self.pairs@.len() ==> self.pairs@[j].0@ != key@,
            },
    {
        let n = self.pairs.len();
        let mut i: usize = 0;
        while i < n
            invariant
                n == self.pairs@.len(),
                i <= n,
                forall|j: int| 0 <= j < i ==> self.pairs@[j].0@ != key@,
            decreases n - i,
        {
            if self.pairs[i].0 == *key {
                return Some(i);
            }
            i += 1;
        }
        None
    }

    /// The value stored under `key`, if any.
    pub fn get<'a>(&'a self, key: &str) -> (r: Option<&'a String>)
        ensures
            match r {
                Some(v) => self@.contains_key(key@) && v@ == self@[key@],
                None => !self@.contains_key(key@),
            },
    {
        proof {
            use_type_invariant(self);
        }
        let owned: String = key.to_owned();
        match self.index_of(&owned) {
            Some(i) => {
                proof {
                    lemma_map_of_pairs_get(self.pairs@, i as int);
                }
                Some(&self.pairs[i].1)
            },
            None => {
                proof {
                    lemma_map_of_pairs_contains(self.pairs@, key@);
                }
                None
            },
        }
    }

    /// Bind `key` to `value`, overriding any earlier binding of `key`.
    pub fn insert(&mut self, key: String, value: String)
        ensures
            final(self)@ == old(self)@.insert(key@, value@),
    {
        proof {
            use_type_invariant(&*self);
        }
        let ghost s0: Seq<(String, String)> = self.pairs@;
        let found = self.index_of(&key);
        let mut pairs: Vec<(String, String)> = Vec::new();
        core::mem::swap(&mut self.pairs, &mut pairs);
        match found {
            Some(i) => {
                pairs[i] = (key, value);
                proof {
                    lemma_map_of_pairs_update(s0, i as int, pairs@[i as int]);
                }
            },
            None => {
                pairs.push((key, value));
                proof {
                    assert(pairs@.drop_last() =~= s0);
                    assert forall|a: int, b: int|
                        0 <= a < b < pairs@.len() implies pairs@[a].0@ != pairs@[b].0@ by {
                        if b < pairs@.len() - 1 {
                            assert(pairs@[a] == s0[a] && pairs@[b] == s0[b]);
                        } else {
                            assert(pairs@[a] == s0[a]);
                        }
                    }
                }
            },
        }
        core::mem::swap(&mut self.pairs, &mut pairs);
    }

    /// Whether the mapping has no entries.
    pub fn is_empty(&self) -> (r: bool)
        ensures
            r <==> self@ == Map::<Seq<char>, Seq<char>>::empty(),
    {
        proof {
            if self.pairs@.len() > 0 {
                lemma_map_of_pairs_contains(self.pairs@, self.pairs@.last().0@);
                assert(self.pairs@[self.pairs@.len() - 1].0@ == self.pairs@.last().0@);
                assert(map_of_pairs(self.pairs@).contains_key(self.pairs@.last().0@));
            }
        }
        self.pairs.len() == 0
    }
}

impl Clone for Params {
    /// An independently owned copy carrying the same mapping.
    fn clone(&self) -> (r: Self)
        ensures
            r@ == self@,
    {
        proof {
            use_type_invariant(self);
        }
        let n = self.pairs.len();
        let mut pairs: Vec<(String, String)> = Vec::new();
        let mut i: usize = 0;
        while i < n
            invariant
                n == self.pairs@.len(),
                i <= n,
                pairs@ =~= self.pairs@.subrange(0, i as int),
            decreases n - i,
        {
            let p = &self.pairs[i];
            pairs.push((p.0.clone(), p.1.clone()));
            i += 1;
        }
        proof {
            assert(pairs@ =~= self.pairs@);
        }
        Params { pairs }
    }
}

} // verus!
