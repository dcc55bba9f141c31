//! The account mapping: a read-only table from source bank account key to
//! budgeting-service account id, built once from external configuration.

use vstd::prelude::*;

verus! {

/// The map described by a list of key/value entries; a later entry for the
/// same key overrides an earlier one.
spec fn entries_map(es: Seq<(String, String)>) -> Map<Seq<char>, Seq<char>>
    decreases es.len(),
{
    if es.len() == 0 {
        Map::empty()
    } else {
        entries_map(es.drop_last()).insert(es.last().0@, es.last().1@)
    }
}

proof fn lemma_entries_map_found(es: Seq<(String, String)>, i: int, k: Seq<char>)
    requires
        0 <= i < es.len(),
        es[i].0@ == k,
        forall|j: int| i < j < es.len() ==> #[trigger] es[j].0@ != k,
    ensures
        entries_map(es).contains_key(k),
        entries_map(es)[k] == es[i].1@,
    decreases es.len(),
{
    if i == es.len() - 1 {
    } else {
        lemma_entries_map_found(es.drop_last(), i, k);
    }
}

proof fn lemma_entries_map_absent(es: Seq<(String, String)>, k: Seq<char>)
    requires
        forall|j: int| 0 <= j < es.len() ==> #[trigger] es[j].0@ != k,
    ensures
        !entries_map(es).contains_key(k),
    decreases es.len(),
{
    if es.len() > 0 {
        lemma_entries_map_absent(es.drop_last(), k);
    }
}

/// A mapping from source bank account keys to budgeting-service account ids.
/// Viewed as a `Map` from key characters to id characters.
pub struct AccountMapping {
    entries: Vec<(String, String)>,
}

impl View for AccountMapping {
    type V = Map<Seq<char>, Seq<char>>;

    closed spec fn view(&self) -> Map<Seq<char>, Seq<char>> {
        entries_map(self.entries@)
    }
}

impl AccountMapping {
    /// An empty mapping.
    pub fn new() -> (r: Self)
        ensures
            r@ == Map::<Seq<char>, Seq<char>>::empty(),
    {
        AccountMapping { entries: Vec::new() }
    }

    /// Adds an entry; an existing entry for the same key is overridden.
    pub fn insert(&mut self, key: String, value: String)
        ensures
            final(self)@ == old(self)@.insert(key@, value@),
    {
        let ghost old_entries = self.entries@;
        self.entries.push((key, value));
        proof {
            assert(self.entries@.drop_last() =~= old_entries);
        }
    }

    /// Looks the target account id up for a source account key.
    pub fn get<'a>(&'a self, key: &String) -> (r: Option<&'a String>)
        ensures
            match r {
                Some(v) => self@.contains_key(key@) && v@ == self@[key@],
                None => !self@.contains_key(key@),
            },
    {
        let mut i = self.entries.len();
        while i > 0
            invariant
                i <= self.entries@.len(),
                forall|j: int|
                    i <= j < self.entries@.len() ==> #[trigger] self.entries@[j].0@ != key@,
            decreases i,
        {
            i = i - 1;
            if self.entries[i].0 == *key {
                proof {
                    lemma_entries_map_found(self.entries@, i as int, key@);
                }
                return Some(&self.entries[i].1);
            }
        }
        proof {
            lemma_entries_map_absent(self.entries@, key@);
        }
        None
    }

    /// The source account keys, in insertion order. Every returned key is in
    /// the mapping and every mapped key is returned.
    pub fn keys(&self) -> (r: Vec<String>)
        ensures
            forall|i: int| 0 <= i < r@.len() ==> self@.contains_key(#[trigger] r@[i]@),
            forall|k: Seq<char>|
                self@.contains_key(k) ==> exists|i: int| 0 <= i < r@.len() && #[trigger] r@[i]@
                    == k,
    {
        let mut r: Vec<String> = Vec::new();
        let mut j: usize = 0;
        while j < self.entries.len()
            invariant
                j <= self.entries@.len(),
                r@.len() == j,
                forall|jj: int| 0 <= jj < j ==> #[trigger] r@[jj]@ == self.entries@[jj].0@,
            decreases self.entries@.len() - j,
        {
            r.push(self.entries[j].0.clone());
            j += 1;
        }
        proof {
            assert forall|i: int| 0 <= i < r@.len() implies self@.contains_key(
                #[trigger] r@[i]@,
            ) by {
                assert(self.entries@[i].0@ == r@[i]@);
                lemma_key_present(self.entries@, r@[i]@);
            }
            assert forall|k: Seq<char>| self@.contains_key(k) implies exists|i: int|
                0 <= i < r@.len() && #[trigger] r@[i]@ == k by {
                if forall|jj: int| 0 <= jj < self.entries@.len()
                    ==> #[trigger] self.entries@[jj].0@ != k {
                    lemma_entries_map_absent(self.entries@, k);
                }
                let jj = choose|jj: int|
                    0 <= jj < self.entries@.len() && #[trigger] self.entries@[jj].0@ == k;
                assert(r@[jj]@ == k);
            }
        }
        r
    }
}

proof fn lemma_key_present(es: Seq<(String, String)>, k: Seq<char>)
    requires
        exists|j: int| 0 <= j < es.len() && #[trigger] es[j].0@ == k,
    ensures
        entries_map(es).contains_key(k),
    decreases es.len(),
{
    let j = choose|j: int| 0 <= j < es.len() && #[trigger] es[j].0@ == k;
    if j == es.len() - 1 {
    } else {
        assert(es.drop_last()[j].0@ == k);
        lemma_key_present(es.drop_last(), k);
    }
}

} // verus!
