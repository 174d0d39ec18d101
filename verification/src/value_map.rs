//! One table row as a column-name-to-value mapping.

use vstd::prelude::*;

use crate::scan::str_eq;

verus! {

/// Mapping denoted by a sequence of insertions: a later pair with the
/// same column name overwrites an earlier one.
pub open spec fn pairs_map(pairs: Seq<(String, String)>) -> Map<Seq<char>, Seq<char>>
    decreases pairs.len(),
{
    if pairs.len() == 0 {
        Map::empty()
    } else {
        pairs_map(pairs.drop_last()).insert(pairs.last().0@, pairs.last().1@)
    }
}

/// A row seen as a mapping from column name to field value.
pub struct ValueMap {
    pairs: Vec<(String, String)>,
}

impl View for ValueMap {
    type V = Map<Seq<char>, Seq<char>>;

    closed spec fn view(&self) -> Map<Seq<char>, Seq<char>> {
        pairs_map(self.pairs@)
    }
}

impl ValueMap {
    /// An empty row: no column has a value.
    pub fn new() -> (r: ValueMap)
        ensures
            r@ == Map::<Seq<char>, Seq<char>>::empty(),
    {
        ValueMap { pairs: Vec::new() }
    }

    /// Binds `column` to `value`, replacing any earlier binding.
    pub fn insert(&mut self, column: String, value: String)
        ensures
            final(self)@ == old(self)@.insert(column@, value@),
    {
        let ghost before = self.pairs@;
        self.pairs.push((column, value));
        proof {
            assert(self.pairs@.drop_last() =~= before);
        }
    }

    /// The value bound to `column`, or `None` when the row has no such
    /// column.
    pub fn get(&self, column: &str) -> (r: Option<&String>)
        ensures
            match r {
                Some(v) => self@.contains_key(column@) && self@[column@] == v@,
                None => !self@.contains_key(column@),
            },
    {
        let n = self.pairs.len();
        let mut found: Option<&String> = None;
        let mut i: usize = 0;
        while i < n
            invariant
                0 <= i <= n,
                n == self.pairs@.len(),
                match found {
                    Some(v) => {
                        &&& pairs_map(self.pairs@.subrange(0, i as int)).contains_key(column@)
                        &&& pairs_map(self.pairs@.subrange(0, i as int))[column@] == v@
                    },
                    None => !pairs_map(self.pairs@.subrange(0, i as int)).contains_key(column@),
                },
            decreases n - i,
        {
            let ghost pre = self.pairs@.subrange(0, i as int);
            let pair = &self.pairs[i];
            if str_eq(pair.0.as_str(), column) {
                found = Some(&pair.1);
            }
            i = i + 1;
            proof {
                assert(self.pairs@.subrange(0, i as int).drop_last() =~= pre);
            }
        }
        proof {
            assert(self.pairs@.subrange(0, n as int) =~= self.pairs@);
        }
        found
    }

    /// Some key of the mapping that `allowed` does not list, or `None`
    /// when every key is listed.
    pub fn first_key_not_in(&self, allowed: &Vec<String>) -> (r: Option<&String>)
        ensures
            match r {
                Some(k) => self@.contains_key(k@) && !allowed.deep_view().contains(k@),
                None => forall|k: Seq<char>|
                    self@.contains_key(k) ==> allowed.deep_view().contains(k),
            },
    {
        let n = self.pairs.len();
        let mut i: usize = 0;
        while i < n
            invariant
                0 <= i <= n,
                n == self.pairs@.len(),
                forall|j: int| 0 <= j < i ==> allowed.deep_view().contains(
                    #[trigger] self.pairs@[j].0@,
                ),
            decreases n - i,
        {
            let key = &self.pairs[i].0;
            if !contains_str(allowed, key.as_str()) {
                proof {
                    lemma_pairs_map_keys(self.pairs@, key@);
                }
                return Some(key);
            }
            i = i + 1;
        }
        proof {
            assert forall|k: Seq<char>| self@.contains_key(k) implies allowed.deep_view().contains(
                k,
            ) by {
                lemma_pairs_map_keys(self.pairs@, k);
            }
        }
        None
    }
}

/// The keys of the denoted mapping are exactly the pair keys.
pub proof fn lemma_pairs_map_keys(pairs: Seq<(String, String)>, k: Seq<char>)
    ensures
        pairs_map(pairs).contains_key(k) <==> exists|i: int|
            0 <= i < pairs.len() && #[trigger] pairs[i].0@ == k,
    decreases pairs.len(),
{
    if pairs.len() > 0 {
        lemma_pairs_map_keys(pairs.drop_last(), k);
        if pairs.last().0@ == k {
            assert(pairs[pairs.len() - 1].0@ == k);
        } else if pairs_map(pairs).contains_key(k) {
            let prefix = pairs.drop_last();
            let i = choose|i: int| 0 <= i < prefix.len() && #[trigger] prefix[i].0@ == k;
            assert(pairs[i].0@ == k);
        } else {
            if exists|i: int| 0 <= i < pairs.len() && #[trigger] pairs[i].0@ == k {
                let i = choose|i: int| 0 <= i < pairs.len() && #[trigger] pairs[i].0@ == k;
                assert(pairs.drop_last()[i].0@ == k);
            }
        }
    }
}

/// Whether some element of `v` equals `s`.
pub fn contains_str(v: &Vec<String>, s: &str) -> (r: bool)
    ensures
        r == v.deep_view().contains(s@),
{
    let n = v.len();
    let mut i: usize = 0;
    while i < n
        invariant
            0 <= i <= n,
            n == v@.len(),
            forall|j: int| 0 <= j < i ==> v.deep_view()[j] != s@,
        decreases n - i,
    {
        if str_eq(v[i].as_str(), s) {
            assert(v.deep_view()[i as int] == s@);
            return true;
        }
        i = i + 1;
    }
    proof {
        assert(!v.deep_view().contains(s@));
    }
    false
}

} // verus!
