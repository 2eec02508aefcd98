use vstd::prelude::*;

verus! {

/// What a list of entries maps each key to: where a key occurs more than
/// once, its last entry counts.
pub open spec fn entries_view<V: View>(es: Seq<(String, V)>) -> Map<Seq<char>, V::V>
    decreases es.len(),
{
    if es.len() == 0 {
        Map::empty()
    } else {
        entries_view(es.drop_last()).insert(es.last().0@, es.last().1@)
    }
}

/// Entries after position `n` that do not hold `k` leave what `k` maps to as it
/// was among the first `n`.
pub proof fn lemma_entries_view_prefix<V: View>(es: Seq<(String, V)>, n: int, k: Seq<char>)
    requires
        0 <= n <= es.len(),
        forall|j: int| n <= j < es.len() ==> es[j].0@ != k,
    ensures
        entries_view(es).contains_key(k) == entries_view(es.take(n)).contains_key(k),
        entries_view(es).contains_key(k) ==> entries_view(es)[k] == entries_view(es.take(n))[k],
    decreases es.len() - n,
{
    if n < es.len() {
        let m = es.len() - 1;
        assert(es.drop_last() =~= es.take(m));
        assert(es.take(m).take(n) =~= es.take(n));
        lemma_entries_view_prefix(es.take(m), n, k);
    } else {
        assert(es.take(n) =~= es);
    }
}

/// A map from string keys to values, in the order the entries were made.
#[derive(Clone, Debug)]
pub struct Table<V> {
    entries: Vec<(String, V)>,
}

impl<V: View> View for Table<V> {
    type V = Map<Seq<char>, V::V>;

    closed spec fn view(&self) -> Map<Seq<char>, V::V> {
        entries_view(self.entries@)
    }
}

impl<V: View> Table<V> {
    pub fn new() -> (r: Self)
        ensures
            r@ == Map::<Seq<char>, V::V>::empty(),
    {
        Table { entries: Vec::new() }
    }

    /// Maps `key` to `value`, in place of what it mapped to before.
    pub fn insert(&mut self, key: String, value: V)
        ensures
            final(self)@ == old(self)@.insert(key@, value@),
    {
        self.entries.push((key, value));
        proof {
            assert(self.entries@.drop_last() =~= old(self).entries@);
        }
    }

    pub fn get(&self, key: &str) -> (r: Option<&V>)
        ensures
            r is Some == self@.contains_key(key@),
            r matches Some(v) ==> v@ == self@[key@],
    {
        let k = key.to_owned();
        let mut i: usize = self.entries.len();
        while i > 0
            invariant
                0 <= i <= self.entries.len(),
                k@ == key@,
                forall|j: int| i <= j < self.entries.len() ==> self.entries@[j].0@ != k@,
            decreases i,
        {
            i = i - 1;
            if self.entries[i].0.eq(&k) {
                proof {
                    let es = self.entries@;
                    lemma_entries_view_prefix(es, i + 1, k@);
                    assert(es.take(i + 1).drop_last() =~= es.take(i as int));
                }
                return Some(&self.entries[i].1);
            }
        }
        proof {
            lemma_entries_view_prefix(self.entries@, 0, k@);
        }
        None
    }
}

} // verus!
