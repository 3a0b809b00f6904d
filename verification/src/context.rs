//! The flat store of named values that templates are rendered against.
use crate::value::{clone_value, pairs, Entry, Pair, Tree, Value};
use vstd::prelude::*;
use vstd::string::*;

verus! {

/// `base` after the first `n` entries were inserted in order: a later entry
/// replaces an earlier one of the same key.
pub open spec fn merged(base: Map<Seq<char>, Tree>, entries: Seq<Pair>, n: int) -> Map<
    Seq<char>,
    Tree,
>
    decreases n,
{
    if n <= 0 || n > entries.len() {
        base
    } else {
        merged(base, entries, n - 1).insert(entries[n - 1].key, entries[n - 1].value)
    }
}

/// A flat mapping from key to value. The entries are kept in the order in
/// which their keys were first bound, and the last entry of a key is the one
/// that counts.
#[derive(Debug)]
pub struct Context {
    pub entries: Vec<Entry>,
}

impl View for Context {
    type V = Map<Seq<char>, Tree>;

    open spec fn view(&self) -> Map<Seq<char>, Tree> {
        merged(Map::empty(), pairs(self.entries@), self.entries@.len() as int)
    }
}

/// Entries after position `from` that do not hold `key` leave its binding as
/// the first `from` entries made it.
pub proof fn lemma_merged_skips(
    base: Map<Seq<char>, Tree>,
    entries: Seq<Pair>,
    from: int,
    n: int,
    key: Seq<char>,
)
    requires
        0 <= from <= n <= entries.len(),
        forall|k: int| from <= k < n ==> entries[k].key != key,
    ensures
        merged(base, entries, n).contains_key(key) == merged(base, entries, from).contains_key(
            key,
        ),
        merged(base, entries, n).contains_key(key) ==> merged(base, entries, n)[key] == merged(
            base,
            entries,
            from,
        )[key],
    decreases n - from,
{
    if from < n {
        lemma_merged_skips(base, entries, from, n - 1, key);
    }
}

/// Merging depends only on the entries that are merged.
pub proof fn lemma_merged_prefix(
    base: Map<Seq<char>, Tree>,
    a: Seq<Pair>,
    b: Seq<Pair>,
    n: int,
)
    requires
        0 <= n <= a.len(),
        n <= b.len(),
        forall|k: int| 0 <= k < n ==> a[k] == b[k],
    ensures
        merged(base, a, n) == merged(base, b, n),
    decreases n,
{
    if n > 0 {
        lemma_merged_prefix(base, a, b, n - 1);
    }
}

/// Merging `more` into what `first` gave is merging `first + more` at once.
pub proof fn lemma_merged_append(first: Seq<Pair>, more: Seq<Pair>, n: int)
    requires
        0 <= n <= more.len(),
    ensures
        merged(Map::empty(), first + more, first.len() + n) == merged(
            merged(Map::empty(), first, first.len() as int),
            more,
            n,
        ),
    decreases n,
{
    if n == 0 {
        lemma_merged_prefix(Map::empty(), first + more, first, first.len() as int);
    } else {
        lemma_merged_append(first, more, n - 1);
        assert((first + more)[first.len() + n - 1] == more[n - 1]);
    }
}

/// Putting a new value in the place of the last entry of a key binds the key
/// to that value and changes nothing else.
pub proof fn lemma_merged_update(
    base: Map<Seq<char>, Tree>,
    entries: Seq<Pair>,
    at: int,
    pair: Pair,
    n: int,
)
    requires
        0 <= at < n <= entries.len(),
        entries[at].key == pair.key,
        forall|k: int| at < k < n ==> entries[k].key != pair.key,
    ensures
        merged(base, entries.update(at, pair), n) == merged(base, entries, n).insert(
            pair.key,
            pair.value,
        ),
    decreases n,
{
    let changed = entries.update(at, pair);
    if n == at + 1 {
        lemma_merged_prefix(base, changed, entries, at);
        assert(merged(base, changed, n) =~= merged(base, entries, n).insert(
            pair.key,
            pair.value,
        ));
    } else {
        lemma_merged_update(base, entries, at, pair, n - 1);
        assert(changed[n - 1] == entries[n - 1]);
        assert(merged(base, changed, n) =~= merged(base, entries, n).insert(
            pair.key,
            pair.value,
        ));
    }
}

impl Context {
    /// An empty context.
    pub fn new() -> (ctx: Context)
        ensures
            ctx@ == Map::<Seq<char>, Tree>::empty(),
    {
        Context { entries: Vec::new() }
    }

    /// Binds `key` to `value`, in place of what it was bound to before.
    #[verifier::loop_isolation(false)]
    pub fn insert(&mut self, key: String, value: Value)
        ensures
            final(self)@ == old(self)@.insert(key@, value@),
    {
        let ghost before = pairs(self.entries@);
        let ghost pair = Pair { key: key@, value: value@ };
        let mut i: usize = self.entries.len();
        while i > 0
            invariant
                i <= self.entries.len(),
                self.entries == old(self).entries,
                forall|k: int| i <= k < self.entries.len() ==> self.entries[k].key@ != key@,
            decreases i,
        {
            i -= 1;
            if self.entries[i].key == key {
                self.entries.set(i, Entry { key, value });
                proof {
                    assert(pairs(self.entries@) =~= before.update(i as int, pair));
                    lemma_merged_update(Map::empty(), before, i as int, pair, before.len() as int);
                }
                return ;
            }
        }
        self.entries.push(Entry { key, value });
        proof {
            assert(pairs(self.entries@) =~= before + seq![pair]);
            lemma_merged_append(before, seq![pair], 1);
            lemma_merged_append(before, seq![pair], 0);
        }
    }

    /// The value that `key` is bound to, if any.
    pub fn get(&self, key: &String) -> (found: Option<&Value>)
        ensures
            match found {
                Some(v) => self@.contains_key(key@) && self@[key@] == v@,
                None => !self@.contains_key(key@),
            },
    {
        let mut i: usize = self.entries.len();
        while i > 0
            invariant
                i <= self.entries.len(),
                forall|k: int| i <= k < self.entries.len() ==> self.entries[k].key@ != key@,
            decreases i,
        {
            i -= 1;
            if self.entries[i].key == *key {
                proof {
                    lemma_merged_skips(
                        Map::empty(),
                        pairs(self.entries@),
                        i + 1,
                        self.entries.len() as int,
                        key@,
                    );
                }
                return Some(&self.entries[i].value);
            }
        }
        proof {
            lemma_merged_skips(
                Map::empty(),
                pairs(self.entries@),
                0,
                self.entries.len() as int,
                key@,
            );
        }
        None
    }

    /// Binds every key of `entries` to its value, in order.
    pub fn merge(&mut self, entries: &Vec<Entry>)
        ensures
            final(self)@ == merged(old(self)@, pairs(entries@), entries@.len() as int),
    {
        let mut i: usize = 0;
        while i < entries.len()
            invariant
                i <= entries.len(),
                self@ == merged(old(self)@, pairs(entries@), i as int),
            decreases entries.len() - i,
        {
            let key = entries[i].key.clone();
            let value = clone_value(&entries[i].value);
            self.insert(key, value);
            i += 1;
        }
    }

    /// Tells whether nothing is bound.
    pub fn is_empty(&self) -> (empty: bool)
        ensures
            empty == (self@ == Map::<Seq<char>, Tree>::empty()),
    {
        proof {
            if self.entries@.len() > 0 {
                let last = pairs(self.entries@)[self.entries@.len() - 1];
                assert(self@.contains_key(last.key));
            }
        }
        self.entries.len() == 0
    }
}

} // verus!
