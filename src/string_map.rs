use vstd::prelude::*;

verus! {

/// The map that a sequence of insertions leaves behind: a later pair
/// overwrites an earlier one with the same key.
pub open spec fn pairs_map(s: Seq<(Seq<char>, Seq<char>)>) -> Map<Seq<char>, Seq<char>>
    decreases s.len(),
{
    if s.len() == 0 {
        Map::empty()
    } else {
        pairs_map(s.drop_last()).insert(s.last().0, s.last().1)
    }
}

/// A pair at index `i` with key `k` that no later pair overrides gives the
/// value of `k`.
pub proof fn lemma_pairs_map_last(s: Seq<(Seq<char>, Seq<char>)>, k: Seq<char>, i: int)
    requires
        0 <= i < s.len(),
        s[i].0 == k,
        forall|j: int| i < j < s.len() ==> s[j].0 != k,
    ensures
        pairs_map(s).contains_key(k),
        pairs_map(s)[k] == s[i].1,
    decreases s.len(),
{
    if i < s.len() - 1 {
        lemma_pairs_map_last(s.drop_last(), k, i);
    }
}

/// A key that no pair carries is absent from the map.
pub proof fn lemma_pairs_map_absent(s: Seq<(Seq<char>, Seq<char>)>, k: Seq<char>)
    requires
        forall|j: int| 0 <= j < s.len() ==> s[j].0 != k,
    ensures
        !pairs_map(s).contains_key(k),
    decreases s.len(),
{
    if s.len() > 0 {
        lemma_pairs_map_absent(s.drop_last(), k);
    }
}

/// Appending pairs that do not carry `k` leaves the value of `k` as it was.
pub proof fn lemma_pairs_map_untouched(
    a: Seq<(Seq<char>, Seq<char>)>,
    b: Seq<(Seq<char>, Seq<char>)>,
    k: Seq<char>,
)
    requires
        forall|j: int| 0 <= j < b.len() ==> b[j].0 != k,
    ensures
        pairs_map(a + b).contains_key(k) == pairs_map(a).contains_key(k),
        pairs_map(a + b)[k] == pairs_map(a)[k],
    decreases b.len(),
{
    if b.len() > 0 {
        assert((a + b).drop_last() =~= a + b.drop_last());
        lemma_pairs_map_untouched(a, b.drop_last(), k);
    } else {
        assert(a + b =~= a);
    }
}

/// A map from strings to strings in which a later insertion of a key
/// replaces the earlier value. It keeps the insertions in order.
pub struct StringMap {
    entries: Vec<(String, String)>,
}

/// The pairs of `v` as character sequences.
pub open spec fn pairs_of(v: Seq<(String, String)>) -> Seq<(Seq<char>, Seq<char>)> {
    v.map_values(|p: (String, String)| (p.0@, p.1@))
}

impl View for StringMap {
    type V = Map<Seq<char>, Seq<char>>;

    closed spec fn view(&self) -> Map<Seq<char>, Seq<char>> {
        pairs_map(pairs_of(self.entries@))
    }
}

impl StringMap {
    /// An empty map.
    pub fn new() -> (r: StringMap)
        ensures
            r@ == Map::<Seq<char>, Seq<char>>::empty(),
    {
        StringMap { entries: Vec::new() }
    }

    /// The map that inserting `entries` in order gives.
    pub fn from_pairs(entries: Vec<(String, String)>) -> (r: StringMap)
        ensures
            r@ == pairs_map(pairs_of(entries@)),
    {
        StringMap { entries }
    }

    /// Sets `key` to `value`, replacing any earlier value.
    pub fn insert(&mut self, key: String, value: String)
        ensures
            final(self)@ == old(self)@.insert(key@, value@),
    {
        let ghost before = pairs_of(self.entries@);
        self.entries.push((key, value));
        assert(pairs_of(self.entries@).drop_last() =~= before);
    }

    /// The index of the last insertion of `key`, if any.
    fn last_index(&self, key: &str) -> (r: Option<usize>)
        ensures
            match r {
                Some(i) => i < self.entries@.len() && self@.contains_key(key@) && self@[key@]
                    == self.entries@[i as int].1@,
                None => !self@.contains_key(key@),
            },
    {
        let k = key.to_owned();
        let ghost s = pairs_of(self.entries@);
        let mut i: usize = self.entries.len();
        while i > 0
            invariant
                i <= self.entries@.len(),
                k@ == key@,
                s == pairs_of(self.entries@),
                forall|j: int| i <= j < s.len() ==> s[j].0 != key@,
            decreases i,
        {
            if self.entries[i - 1].0 == k {
                proof {
                    lemma_pairs_map_last(s, key@, i - 1);
                }
                return Some(i - 1);
            }
            i = i - 1;
        }
        proof {
            lemma_pairs_map_absent(s, key@);
        }
        None
    }

    /// Whether `key` has a value.
    pub fn contains_key(&self, key: &str) -> (r: bool)
        ensures
            r == self@.contains_key(key@),
    {
        self.last_index(key).is_some()
    }

    /// The value of `key`, if it has one.
    pub fn get(&self, key: &str) -> (r: Option<String>)
        ensures
            match r {
                Some(v) => self@.contains_key(key@) && v@ == self@[key@],
                None => !self@.contains_key(key@),
            },
    {
        match self.last_index(key) {
            Some(i) => Some(self.entries[i].1.clone()),
            None => None,
        }
    }

    /// The insertions made, in order; replaying them gives the map.
    pub fn entries(&self) -> (r: &Vec<(String, String)>)
        ensures
            pairs_map(pairs_of(r@)) == self@,
    {
        &self.entries
    }
}

} // verus!
