use vstd::prelude::*;

verus! {

/// Translations keyed by segment id; when an id occurs more than once, the
/// first pair counts.
#[derive(Clone, Debug, PartialEq, Eq)]
pub struct TranslationTable {
    pub pairs: Vec<(String, String)>,
}

pub open spec fn pair_models(pairs: Seq<(String, String)>) -> Seq<(Seq<char>, Seq<char>)> {
    pairs.map_values(|p: (String, String)| (p.0@, p.1@))
}

/// The translation recorded for `key` at or after position `i`.
pub open spec fn lookup_from(pairs: Seq<(Seq<char>, Seq<char>)>, key: Seq<char>, i: int) -> Option<Seq<char>>
    decreases pairs.len() - i,
{
    if i < 0 || i >= pairs.len() {
        None
    } else if pairs[i].0 == key {
        Some(pairs[i].1)
    } else {
        lookup_from(pairs, key, i + 1)
    }
}

/// The translation recorded for `key`.
pub open spec fn lookup(pairs: Seq<(Seq<char>, Seq<char>)>, key: Seq<char>) -> Option<Seq<char>> {
    lookup_from(pairs, key, 0)
}

impl TranslationTable {
    pub open spec fn model(&self) -> Seq<(Seq<char>, Seq<char>)> {
        pair_models(self.pairs@)
    }

    /// The translation recorded for `key`, if any.
    pub fn get(&self, key: &str) -> (r: Option<&String>)
        ensures
            match r {
                Some(t) => lookup(self.model(), key@) == Some(t@),
                None => lookup(self.model(), key@) is None,
            },
    {
        let mut i: usize = 0;
        while i < self.pairs.len()
            invariant
                i <= self.pairs.len(),
                lookup(self.model(), key@) == lookup_from(self.model(), key@, i as int),
            decreases self.pairs.len() - i,
        {
            if crate::text::str_equal(self.pairs[i].0.as_str(), key) {
                return Some(&self.pairs[i].1);
            }
            i = i + 1;
        }
        None
    }
}


/// What `lookup_from` finds: the first pair with the key at or after `j`, or none.
pub proof fn lemma_lookup_from(pairs: Seq<(Seq<char>, Seq<char>)>, key: Seq<char>, j: int)
    requires
        0 <= j,
    ensures
        match lookup_from(pairs, key, j) {
            Some(v) => exists|i: int|
                j <= i < pairs.len() && #[trigger] pairs[i] == (key, v) && forall|l: int|
                    j <= l < i ==> pairs[l].0 != key,
            None => forall|l: int| j <= l < pairs.len() ==> #[trigger] pairs[l].0 != key,
        },
    decreases pairs.len() - j,
{
    if j < pairs.len() && pairs[j].0 != key {
        lemma_lookup_from(pairs, key, j + 1);
        if let Some(v) = lookup_from(pairs, key, j + 1) {
            let i = choose|i: int|
                j + 1 <= i < pairs.len() && #[trigger] pairs[i] == (key, v) && forall|l: int|
                    j + 1 <= l < i ==> pairs[l].0 != key;
            assert(j <= i < pairs.len() && pairs[i] == (key, v) && forall|l: int|
                j <= l < i ==> pairs[l].0 != key);
        }
    } else if j < pairs.len() {
        assert(pairs[j] == (key, pairs[j].1));
    }
}

/// Whether no key occurs twice.
pub open spec fn distinct_keys(pairs: Seq<(Seq<char>, Seq<char>)>) -> bool {
    forall|i: int, j: int|
        0 <= i < j < pairs.len() ==> #[trigger] pairs[i].0 != #[trigger] pairs[j].0
}

/// With distinct keys, the value recorded for a key is the value of its pair.
pub proof fn lemma_lookup_distinct(pairs: Seq<(Seq<char>, Seq<char>)>, key: Seq<char>)
    requires
        distinct_keys(pairs),
    ensures
        forall|i: int|
            0 <= i < pairs.len() && #[trigger] pairs[i].0 == key ==> lookup(pairs, key) == Some(
                pairs[i].1,
            ),
        (forall|i: int| 0 <= i < pairs.len() ==> #[trigger] pairs[i].0 != key) ==> lookup(
            pairs,
            key,
        ) is None,
{
    lemma_lookup_from(pairs, key, 0);
    if let Some(v) = lookup_from(pairs, key, 0) {
        let m = choose|m: int|
            0 <= m < pairs.len() && #[trigger] pairs[m] == (key, v) && forall|l: int|
                0 <= l < m ==> pairs[l].0 != key;
        assert(pairs[m].0 == key);
    }
    assert forall|i: int|
        0 <= i < pairs.len() && #[trigger] pairs[i].0 == key implies lookup(pairs, key) == Some(
        pairs[i].1,
    ) by {
        match lookup_from(pairs, key, 0) {
            Some(v) => {
                let m = choose|m: int|
                    0 <= m < pairs.len() && #[trigger] pairs[m] == (key, v) && forall|l: int|
                        0 <= l < m ==> pairs[l].0 != key;
                if m != i {
                    if m < i {
                        assert(pairs[m].0 != pairs[i].0);
                    } else {
                        assert(pairs[i].0 != pairs[m].0);
                    }
                }
            },
            None => {
                assert(pairs[i].0 != key);
            },
        }
    }
}

} // verus!
