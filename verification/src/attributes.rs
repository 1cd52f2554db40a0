//! The attribute mapping of an event: string keys to string values, every
//! key once.

use vstd::prelude::*;
use vstd::string::*;

verus! {

/// A key with its value, both as text.
pub type TextPair = (Seq<char>, Seq<char>);

/// One attribute of an event.
pub struct Attribute {
    pub key: String,
    pub value: String,
}

impl View for Attribute {
    type V = TextPair;

    open spec fn view(&self) -> TextPair {
        (self.key@, self.value@)
    }
}

/// The mapping that a run of insertions builds: a later value for a key
/// replaces the earlier one.
pub open spec fn map_of(pairs: Seq<TextPair>) -> Map<Seq<char>, Seq<char>>
    decreases pairs.len(),
{
    if pairs.len() == 0 {
        Map::empty()
    } else {
        map_of(pairs.drop_last()).insert(pairs.last().0, pairs.last().1)
    }
}

/// No two pairs share a key.
pub open spec fn distinct_keys(pairs: Seq<TextPair>) -> bool {
    forall|i: int, j: int|
        0 <= i < pairs.len() && 0 <= j < pairs.len() && i != j ==> (#[trigger] pairs[i]).0 != (
        #[trigger] pairs[j]).0
}

/// Whether some pair carries the key.
pub open spec fn has_key(pairs: Seq<TextPair>, key: Seq<char>) -> bool {
    exists|i: int| 0 <= i < pairs.len() && (#[trigger] pairs[i]).0 == key
}

/// The keys of the mapping are the keys of the pairs.
pub proof fn lemma_map_of_dom(pairs: Seq<TextPair>)
    ensures
        forall|key: Seq<char>| #[trigger] map_of(pairs).dom().contains(key) <==> has_key(pairs, key),
        map_of(pairs).dom().finite(),
    decreases pairs.len(),
{
    if pairs.len() > 0 {
        let front = pairs.drop_last();
        lemma_map_of_dom(front);
        assert forall|key: Seq<char>| #[trigger]
            map_of(pairs).dom().contains(key) <==> has_key(pairs, key) by {
            if has_key(pairs, key) {
                let i = choose|i: int| 0 <= i < pairs.len() && (#[trigger] pairs[i]).0 == key;
                if i < front.len() {
                    assert(front[i].0 == key);
                }
            }
            if has_key(front, key) {
                let i = choose|i: int| 0 <= i < front.len() && (#[trigger] front[i]).0 == key;
                assert(pairs[i].0 == key);
            }
            if key == pairs.last().0 {
                assert(pairs[pairs.len() - 1].0 == key);
            }
        }
    }
}

/// Where every key occurs once, the mapping holds each pair as it stands,
/// and as many keys as there are pairs.
pub proof fn lemma_map_of_distinct(pairs: Seq<TextPair>)
    requires
        distinct_keys(pairs),
    ensures
        forall|i: int|
            0 <= i < pairs.len() ==> map_of(pairs).dom().contains((#[trigger] pairs[i]).0)
                && map_of(pairs)[pairs[i].0] == pairs[i].1,
        map_of(pairs).dom().finite(),
        map_of(pairs).dom().len() == pairs.len(),
    decreases pairs.len(),
{
    lemma_map_of_dom(pairs);
    if pairs.len() > 0 {
        let front = pairs.drop_last();
        let last = pairs.last();
        assert(distinct_keys(front)) by {
            assert forall|i: int, j: int|
                0 <= i < front.len() && 0 <= j < front.len() && i != j implies (
            #[trigger] front[i]).0 != (#[trigger] front[j]).0 by {
                assert(pairs[i].0 != pairs[j].0);
            }
        }
        lemma_map_of_distinct(front);
        lemma_map_of_dom(front);
        assert(!has_key(front, last.0)) by {
            if has_key(front, last.0) {
                let i = choose|i: int| 0 <= i < front.len() && (#[trigger] front[i]).0 == last.0;
                assert(pairs[i].0 == pairs[pairs.len() - 1].0);
            }
        }
        assert forall|i: int| 0 <= i < pairs.len() implies map_of(pairs).dom().contains(
            (#[trigger] pairs[i]).0,
        ) && map_of(pairs)[pairs[i].0] == pairs[i].1 by {
            if i < front.len() {
                assert(front[i] == pairs[i]);
                assert(pairs[i].0 != pairs[pairs.len() - 1].0);
            }
        }
    }
}

/// Replacing the value of a key where it stands is an insertion.
pub proof fn lemma_map_of_update(pairs: Seq<TextPair>, at: int, value: Seq<char>)
    requires
        distinct_keys(pairs),
        0 <= at < pairs.len(),
    ensures
        map_of(pairs.update(at, (pairs[at].0, value))) == map_of(pairs).insert(pairs[at].0, value),
        distinct_keys(pairs.update(at, (pairs[at].0, value))),
    decreases pairs.len(),
{
    let key = pairs[at].0;
    let changed = pairs.update(at, (key, value));
    let front = pairs.drop_last();
    assert(distinct_keys(changed)) by {
        assert forall|i: int, j: int|
            0 <= i < changed.len() && 0 <= j < changed.len() && i != j implies (
        #[trigger] changed[i]).0 != (#[trigger] changed[j]).0 by {
            assert(changed[i].0 == pairs[i].0);
            assert(changed[j].0 == pairs[j].0);
        }
    }
    if at == pairs.len() - 1 {
        assert(changed.drop_last() == front);
        assert(map_of(changed) == map_of(pairs).insert(key, value));
    } else {
        assert(distinct_keys(front)) by {
            assert forall|i: int, j: int|
                0 <= i < front.len() && 0 <= j < front.len() && i != j implies (
            #[trigger] front[i]).0 != (#[trigger] front[j]).0 by {
                assert(pairs[i].0 != pairs[j].0);
            }
        }
        lemma_map_of_update(front, at, value);
        assert(front[at] == pairs[at]);
        assert(changed.drop_last() == front.update(at, (key, value)));
        assert(changed.last() == pairs.last());
        assert(pairs[at].0 != pairs[pairs.len() - 1].0);
        assert(map_of(changed) == map_of(pairs).insert(key, value));
    }
}

/// The attributes of an event.
pub struct Attributes {
    entries: Vec<Attribute>,
}

impl View for Attributes {
    type V = Map<Seq<char>, Seq<char>>;

    open spec fn view(&self) -> Map<Seq<char>, Seq<char>> {
        map_of(self.pairs())
    }
}

impl Attributes {
    /// The attributes as pairs, in the order in which their keys first came.
    pub closed spec fn pairs(&self) -> Seq<TextPair> {
        self.entries@.map_values(|a: Attribute| a@)
    }

    #[verifier::type_invariant]
    spec fn every_key_once(self) -> bool {
        distinct_keys(self.pairs())
    }

    /// No attributes.
    pub fn new() -> (attributes: Attributes)
        ensures
            attributes@ == Map::<Seq<char>, Seq<char>>::empty(),
            attributes.pairs() == Seq::<TextPair>::empty(),
    {
        let entries: Vec<Attribute> = Vec::new();
        assert(entries@.map_values(|a: Attribute| a@) == Seq::<TextPair>::empty());
        Attributes { entries }
    }

    /// Number of attributes.
    pub fn len(&self) -> (n: usize)
        ensures
            n == self.pairs().len(),
            self@.dom().finite(),
            n == self@.dom().len(),
    {
        proof {
            use_type_invariant(self);
            lemma_map_of_distinct(self.pairs());
        }
        self.entries.len()
    }

    fn position(&self, key: &String) -> (at: Option<usize>)
        ensures
            match at {
                Some(i) => i < self.pairs().len() && self.pairs()[i as int].0 == key@,
                None => !has_key(self.pairs(), key@),
            },
    {
        let mut i: usize = 0;
        while i < self.entries.len()
            invariant
                i <= self.entries@.len(),
                self.pairs().len() == self.entries@.len(),
                forall|k: int| 0 <= k < i ==> (#[trigger] self.pairs()[k]).0 != key@,
            decreases self.entries@.len() - i,
        {
            if self.entries[i].key == *key {
                return Some(i);
            }
            i += 1;
        }
        None
    }

    /// The value under `key`, if the key is present.
    pub fn get(&self, key: &str) -> (value: Option<&String>)
        ensures
            match value {
                Some(v) => self@.dom().contains(key@) && v@ == self@[key@],
                None => !self@.dom().contains(key@),
            },
    {
        let wanted = String::from_str(key);
        proof {
            lemma_map_of_dom(self.pairs());
        }
        let mut i: usize = self.entries.len();
        while i > 0
            invariant
                i <= self.entries@.len(),
                wanted@ == key@,
                self.pairs().len() == self.entries@.len(),
                forall|k: int| i <= k < self.pairs().len() ==> (#[trigger] self.pairs()[k]).0 != key@,
            decreases i,
        {
            i -= 1;
            if self.entries[i].key == wanted {
                proof {
                    lemma_map_of_latest(self.pairs(), i as int);
                }
                return Some(&self.entries[i].value);
            }
        }
        None
    }

    /// Puts `value` under `key`; an earlier value under that key is replaced.
    pub fn insert(&mut self, key: String, value: String)
        ensures
            final(self)@ == old(self)@.insert(key@, value@),
    {
        proof {
            use_type_invariant(&*self);
        }
        let found = self.position(&key);
        let ghost before = self.pairs();
        let ghost pair = (key@, value@);
        let mut entries: Vec<Attribute> = Vec::new();
        assert(entries@.map_values(|a: Attribute| a@) == Seq::<TextPair>::empty());
        core::mem::swap(&mut self.entries, &mut entries);
        assert(entries@.map_values(|a: Attribute| a@) == before);
        match found {
            Some(i) => {
                proof {
                    lemma_map_of_update(before, i as int, value@);
                }
                entries.set(i, Attribute { key, value });
                assert(entries@.map_values(|a: Attribute| a@) == before.update(
                    i as int,
                    (before[i as int].0, value@),
                ));
            },
            None => {
                entries.push(Attribute { key, value });
                let ghost after = entries@.map_values(|a: Attribute| a@);
                assert(after == before.push(pair));
                assert(after.drop_last() == before);
                assert(distinct_keys(after)) by {
                    assert forall|i: int, j: int|
                        0 <= i < after.len() && 0 <= j < after.len() && i != j implies (
                    #[trigger] after[i]).0 != (#[trigger] after[j]).0 by {
                        if i < before.len() {
                            assert(before[i].0 == after[i].0);
                        }
                        if j < before.len() {
                            assert(before[j].0 == after[j].0);
                        }
                    }
                }
            },
        }
        self.entries = entries;
    }

    /// The attributes one by one, every key once.
    pub fn entries(&self) -> (entries: &Vec<Attribute>)
        ensures
            entries@.map_values(|a: Attribute| a@) == self.pairs(),
            distinct_keys(self.pairs()),
    {
        proof {
            use_type_invariant(self);
        }
        &self.entries
    }

    /// A copy with the same keys and values.
    pub fn duplicate(&self) -> (copy: Attributes)
        ensures
            copy.pairs() == self.pairs(),
            copy@ == self@,
    {
        proof {
            use_type_invariant(self);
        }
        let mut entries: Vec<Attribute> = Vec::new();
        let mut i: usize = 0;
        while i < self.entries.len()
            invariant
                i <= self.entries@.len(),
                entries@.len() == i,
                forall|k: int| 0 <= k < i ==> (#[trigger] entries@[k])@ == self.entries@[k]@,
            decreases self.entries@.len() - i,
        {
            let key = self.entries[i].key.clone();
            let value = self.entries[i].value.clone();
            entries.push(Attribute { key, value });
            i += 1;
        }
        assert(entries@.map_values(|a: Attribute| a@) == self.pairs());
        Attributes { entries }
    }
}

/// The mapping holds, under a key, the value of the last pair with that key.
pub proof fn lemma_map_of_latest(pairs: Seq<TextPair>, at: int)
    requires
        0 <= at < pairs.len(),
        forall|k: int| at < k < pairs.len() ==> (#[trigger] pairs[k]).0 != pairs[at].0,
    ensures
        map_of(pairs).dom().contains(pairs[at].0),
        map_of(pairs)[pairs[at].0] == pairs[at].1,
    decreases pairs.len(),
{
    if at < pairs.len() - 1 {
        let front = pairs.drop_last();
        assert(front[at] == pairs[at]);
        assert forall|k: int| at < k < front.len() implies (#[trigger] front[k]).0
            != front[at].0 by {
            assert(pairs[k].0 != pairs[at].0);
        }
        lemma_map_of_latest(front, at);
        assert(pairs[pairs.len() - 1].0 != pairs[at].0);
    }
}

} // verus!
