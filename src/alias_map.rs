//! A finite mapping from alias names to command strings.
use vstd::prelude::*;

verus! {

/// The views of a sequence of string pairs.
pub open spec fn pairs_view(v: Seq<(String, String)>) -> Seq<(Seq<char>, Seq<char>)> {
    v.map_values(|p: (String, String)| (p.0@, p.1@))
}

/// The mapping that a sequence of pairs denotes, later pairs overriding earlier ones.
pub open spec fn map_of(s: Seq<(Seq<char>, Seq<char>)>) -> Map<Seq<char>, Seq<char>>
    decreases s.len(),
{
    if s.len() == 0 {
        Map::empty()
    } else {
        map_of(s.drop_last()).insert(s.last().0, s.last().1)
    }
}

/// No two pairs share a key.
pub open spec fn keys_unique(s: Seq<(Seq<char>, Seq<char>)>) -> bool {
    forall|i: int, j: int| 0 <= i < j < s.len() ==> s[i].0 != s[j].0
}

/// A key is in the mapping exactly when some pair carries it; with unique keys
/// each pair's value is the one the mapping gives.
pub proof fn lemma_map_of(s: Seq<(Seq<char>, Seq<char>)>)
    ensures
        forall|k: Seq<char>|
            #[trigger] map_of(s).contains_key(k) <==> exists|i: int| 0 <= i < s.len() && s[i].0 == k,
        keys_unique(s) ==> forall|i: int| 0 <= i < s.len() ==> #[trigger] map_of(s)[s[i].0] == s[i].1,
    decreases s.len(),
{
    if s.len() > 0 {
        let t = s.drop_last();
        lemma_map_of(t);
        assert forall|k: Seq<char>| #[trigger] map_of(s).contains_key(k) implies exists|i: int|
            0 <= i < s.len() && s[i].0 == k by {
            if k != s.last().0 {
                assert(map_of(t).contains_key(k));
                let i = choose|i: int| 0 <= i < t.len() && t[i].0 == k;
                assert(s[i] == t[i]);
            } else {
                assert(s[s.len() - 1].0 == k);
            }
        }
        assert forall|k: Seq<char>| (exists|i: int| 0 <= i < s.len() && s[i].0 == k) implies #[trigger] map_of(s).contains_key(k) by {
            let i = choose|i: int| 0 <= i < s.len() && s[i].0 == k;
            if i < s.len() - 1 {
                assert(t[i] == s[i]);
                assert(map_of(t).contains_key(k));
            }
        }
        if keys_unique(s) {
            assert(keys_unique(t)) by {
                assert forall|i: int, j: int| 0 <= i < j < t.len() implies t[i].0 != t[j].0 by {
                    assert(t[i] == s[i] && t[j] == s[j]);
                }
            }
            assert forall|i: int| 0 <= i < s.len() implies #[trigger] map_of(s)[s[i].0] == s[i].1 by {
                if i < s.len() - 1 {
                    assert(t[i] == s[i]);
                    assert(s[i].0 != s[s.len() - 1].0);
                    assert(map_of(t)[t[i].0] == t[i].1);
                }
            }
        }
    }
}

/// Aliases and the command lines they stand for, each alias at most once.
#[derive(Debug)]
pub struct AliasMap {
    entries: Vec<(String, String)>,
}

impl View for AliasMap {
    type V = Map<Seq<char>, Seq<char>>;

    open spec fn view(&self) -> Map<Seq<char>, Seq<char>> {
        map_of(self.pairs())
    }
}

impl AliasMap {
    /// The entries as plain values, in storage order.
    pub closed spec fn pairs(&self) -> Seq<(Seq<char>, Seq<char>)> {
        pairs_view(self.entries@)
    }

    /// Every alias is stored once.
    pub open spec fn wf(&self) -> bool {
        keys_unique(self.pairs())
    }

    /// The mapping with no alias.
    pub fn new() -> (r: AliasMap)
        ensures
            r.wf(),
            r@ == Map::<Seq<char>, Seq<char>>::empty(),
    {
        let r = AliasMap { entries: Vec::new() };
        assert(r.pairs() =~= Seq::<(Seq<char>, Seq<char>)>::empty());
        r
    }

    /// Whether no alias is defined.
    pub fn is_empty(&self) -> (r: bool)
        requires
            self.wf(),
        ensures
            r == (self@ == Map::<Seq<char>, Seq<char>>::empty()),
    {
        proof {
            lemma_map_of(self.pairs());
        }
        if self.entries.len() == 0 {
            assert(self.pairs() =~= Seq::<(Seq<char>, Seq<char>)>::empty());
            true
        } else {
            assert(self@.contains_key(self.pairs()[0].0));
            false
        }
    }

    /// Where `alias` is stored, if it is.
    fn position(&self, alias: &String) -> (r: Option<usize>)
        requires
            self.wf(),
        ensures
            match r {
                Some(i) => i < self.entries@.len() && self.pairs()[i as int].0 == alias@,
                None => !self@.contains_key(alias@),
            },
    {
        proof {
            lemma_map_of(self.pairs());
        }
        let mut i: usize = 0;
        while i < self.entries.len()
            invariant
                i <= self.entries@.len(),
                forall|j: int| 0 <= j < i ==> self.pairs()[j].0 != alias@,
            decreases self.entries@.len() - i,
        {
            if self.entries[i].0 == *alias {
                return Some(i);
            }
            i = i + 1;
        }
        None
    }

    /// The command line that `alias` stands for.
    pub fn get(&self, alias: &String) -> (r: Option<&String>)
        requires
            self.wf(),
        ensures
            match r {
                Some(c) => self@.contains_key(alias@) && self@[alias@] == c@,
                None => !self@.contains_key(alias@),
            },
    {
        proof {
            lemma_map_of(self.pairs());
        }
        match self.position(alias) {
            Some(i) => {
                assert(self@[self.pairs()[i as int].0] == self.pairs()[i as int].1);
                Some(&self.entries[i].1)
            },
            None => None,
        }
    }

    /// Defines `alias` as `command`, replacing an earlier definition.
    pub fn insert(&mut self, alias: String, command: String)
        requires
            old(self).wf(),
        ensures
            final(self).wf(),
            final(self)@ == old(self)@.insert(alias@, command@),
    {
        let ghost s0 = self.pairs();
        proof {
            lemma_map_of(s0);
        }
        match self.position(&alias) {
            Some(i) => {
                self.entries.set(i, (alias, command));
                let ghost s1 = self.pairs();
                assert(s1 =~= s0.update(i as int, (alias@, command@)));
                proof {
                    lemma_map_of(s1);
                }
                assert forall|k: Seq<char>|
                    #[trigger] map_of(s1).contains_key(k) == map_of(s0).insert(alias@, command@).contains_key(k)
                    by {
                    if map_of(s0).contains_key(k) {
                        let j = choose|j: int| 0 <= j < s0.len() && s0[j].0 == k;
                        assert(s1[j].0 == k);
                    }
                    if map_of(s1).contains_key(k) {
                        let j = choose|j: int| 0 <= j < s1.len() && s1[j].0 == k;
                        assert(s0[j].0 == k);
                    }
                }
                assert forall|k: Seq<char>| map_of(s1).contains_key(k) implies map_of(s1)[k]
                    == map_of(s0).insert(alias@, command@)[k] by {
                    let j = choose|j: int| 0 <= j < s1.len() && s1[j].0 == k;
                    assert(map_of(s1)[s1[j].0] == s1[j].1);
                    if j != i {
                        assert(map_of(s0)[s0[j].0] == s0[j].1);
                    }
                }
                assert(map_of(s1) =~= map_of(s0).insert(alias@, command@));
            },
            None => {
                self.entries.push((alias, command));
                let ghost s1 = self.pairs();
                assert(s1 =~= s0.push((alias@, command@)));
                assert(s1.drop_last() =~= s0);
                assert forall|i: int, j: int| 0 <= i < j < s1.len() implies s1[i].0 != s1[j].0 by {
                    if j == s1.len() - 1 {
                        assert(s0[i].0 == s1[i].0);
                    }
                }
            },
        }
    }

    /// The stored pairs, each alias once, in no particular order.
    pub fn entries(&self) -> (r: &Vec<(String, String)>)
        requires
            self.wf(),
        ensures
            keys_unique(pairs_view(r@)),
            map_of(pairs_view(r@)) == self@,
    {
        &self.entries
    }

    /// Adds every definition of `other`, which replaces a definition of the
    /// same alias here.
    pub fn extend(&mut self, other: &AliasMap)
        requires
            old(self).wf(),
            other.wf(),
        ensures
            final(self).wf(),
            final(self)@ == old(self)@.union_prefer_right(other@),
    {
        let ghost base = self@;
        let ghost s = other.pairs();
        let mut i: usize = 0;
        assert(s.take(0) =~= Seq::<(Seq<char>, Seq<char>)>::empty());
        assert(base.union_prefer_right(map_of(s.take(0))) =~= base);
        while i < other.entries.len()
            invariant
                i <= other.entries@.len(),
                s == other.pairs(),
                self.wf(),
                self@ == base.union_prefer_right(map_of(s.take(i as int))),
            decreases other.entries@.len() - i,
        {
            let alias = other.entries[i].0.clone();
            let command = other.entries[i].1.clone();
            let ghost before = map_of(s.take(i as int));
            self.insert(alias, command);
            assert(s.take(i + 1).drop_last() =~= s.take(i as int));
            assert(map_of(s.take(i + 1)) == before.insert(s[i as int].0, s[i as int].1));
            assert(base.union_prefer_right(before).insert(s[i as int].0, s[i as int].1)
                =~= base.union_prefer_right(map_of(s.take(i + 1))));
            i = i + 1;
        }
        assert(s.take(i as int) =~= s);
    }

    /// The mapping that `pairs` denotes, a later pair replacing an earlier one
    /// of the same alias.
    pub fn from_pairs(pairs: Vec<(String, String)>) -> (r: AliasMap)
        ensures
            r.wf(),
            r@ == map_of(pairs_view(pairs@)),
    {
        let ghost s = pairs_view(pairs@);
        let mut r = AliasMap::new();
        let mut i: usize = 0;
        assert(s.take(0) =~= Seq::<(Seq<char>, Seq<char>)>::empty());
        while i < pairs.len()
            invariant
                i <= pairs@.len(),
                s == pairs_view(pairs@),
                r.wf(),
                r@ == map_of(s.take(i as int)),
            decreases pairs@.len() - i,
        {
            let alias = pairs[i].0.clone();
            let command = pairs[i].1.clone();
            r.insert(alias, command);
            assert(s.take(i + 1).drop_last() =~= s.take(i as int));
            i = i + 1;
        }
        assert(s.take(i as int) =~= s);
        r
    }
}

} // verus!
