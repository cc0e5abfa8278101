use vstd::prelude::*;
use std::collections::HashMap;

verus! {

/// A map has as many key-value pairs as keys.
proof fn lemma_kv_pairs_len<K, V>(m: Map<K, V>)
    requires
        m.dom().finite(),
    ensures
        m.kv_pairs().len() == m.dom().len(),
        m.kv_pairs().finite(),
    decreases m.dom().len(),
{
    if m.dom().len() == 0 {
        assert(m.dom() =~= Set::<K>::empty());
        assert(m.kv_pairs() =~= Set::<(K, V)>::empty());
    } else {
        let k = m.dom().choose();
        let rest = m.remove(k);
        lemma_kv_pairs_len(rest);
        assert(m.kv_pairs() =~= rest.kv_pairs().insert((k, m[k])));
        assert(!rest.kv_pairs().contains((k, m[k])));
    }
}

/// The entries a hash map gives, each once.
pub(crate) proof fn lemma_entries_distinct<K, V>(m: &HashMap<K, V>)
    ensures
        ({
            let entries = vstd::std_specs::iter::IteratorSpec::remaining(&vstd::std_specs::hash::spec_hash_map_iter(m));
            forall|i: int, j: int| 0 <= i < entries.len() && 0 <= j < entries.len() && i != j ==> #[trigger] entries[i].0 != #[trigger] entries[j].0
        }),
{
    let entries = vstd::std_specs::iter::IteratorSpec::remaining(&vstd::std_specs::hash::spec_hash_map_iter(m));
    lemma_kv_pairs_len(m@);
    entries.unref().lemma_no_dup_set_cardinality();
    assert forall|i: int, j: int| 0 <= i < entries.len() && 0 <= j < entries.len() && i != j implies #[trigger] entries[i].0 != #[trigger] entries[j].0 by {
        if entries[i].0 == entries[j].0 {
            assert(m@.contains_key(*entries[i].0));
            assert(m@[*entries[i].0] == *entries[i].1);
            assert(m@.contains_key(*entries[j].0));
            assert(m@[*entries[j].0] == *entries[j].1);
            assert(entries.unref()[i] == entries.unref()[j]);
        }
    }
}

} // verus!
