//! Lists of entries tagged with a string key, in the order they were added.
use vstd::prelude::*;

verus! {

/// Whether an entry's key differs from `key`.
pub open spec fn other_key<C>(key: Seq<char>) -> spec_fn((String, C)) -> bool {
    |e: (String, C)| e.0@ != key
}

/// Whether some entry of `s` has the key `key`.
pub open spec fn has_key<C>(s: Seq<(String, C)>, key: Seq<char>) -> bool {
    exists|i: int| 0 <= i < s.len() && (#[trigger] s[i]).0@ == key
}

/// Removes every entry whose key is `key`; the others keep their order.
pub fn remove_key<C>(v: &mut Vec<(String, C)>, key: &String)
    ensures
        final(v)@ == old(v)@.filter(other_key::<C>(key@)),
{
    let ghost orig = v@;
    let ghost pred = other_key::<C>(key@);
    let mut i: usize = 0;
    let ghost mut j: int = 0;
    assert(v@.take(0) =~= orig.take(0).filter(pred)) by {
        reveal(Seq::filter);
    }
    assert(v@.skip(0) =~= orig.skip(0));
    while i < v.len()
        invariant
            pred == other_key::<C>(key@),
            0 <= i <= v.len(),
            0 <= j <= orig.len(),
            v.len() - i == orig.len() - j,
            v@.take(i as int) == orig.take(j).filter(pred),
            v@.skip(i as int) == orig.skip(j),
        decreases v.len() - i,
    {
        let ghost before = v@;
        let ghost e = orig[j];
        assert(before.skip(i as int)[0] == e);
        assert(orig.take(j + 1) =~= orig.take(j).push(e));
        proof {
            orig.take(j).lemma_filter_push(e, pred);
        }
        if v[i].0 == *key {
            v.remove(i);
            assert(v@.take(i as int) =~= before.take(i as int));
            assert(v@.skip(i as int) =~= orig.skip(j + 1)) by {
                assert(before.skip(i as int).skip(1) =~= orig.skip(j).skip(1));
                assert(orig.skip(j).skip(1) =~= orig.skip(j + 1));
            }
        } else {
            i += 1;
            assert(v@.take(i as int) =~= before.take(i - 1).push(e));
            assert(v@.skip(i as int) =~= orig.skip(j + 1)) by {
                assert(before.skip(i - 1).skip(1) =~= before.skip(i as int));
                assert(orig.skip(j).skip(1) =~= orig.skip(j + 1));
            }
        }
        proof {
            j = j + 1;
        }
    }
    assert(v@ =~= v@.take(i as int));
    assert(orig.skip(j).len() == 0);
    assert(orig =~= orig.take(j));
}

/// After removing the key `key`, no entry has that key.
pub proof fn lemma_removed_key_absent<C>(s: Seq<(String, C)>, key: Seq<char>)
    ensures
        !has_key(s.filter(other_key::<C>(key)), key),
{
    broadcast use vstd::seq_lib::group_filter_ensures;

    let f = s.filter(other_key::<C>(key));
    if has_key(f, key) {
        let i = choose|i: int| 0 <= i < f.len() && (#[trigger] f[i]).0@ == key;
        assert(other_key::<C>(key)(f[i]));
    }
}

/// No two entries share a key.
pub open spec fn unique_keys<C>(s: Seq<(String, C)>) -> bool {
    forall|i: int, j: int| 0 <= i < s.len() && 0 <= j < s.len() && i != j ==> (#[trigger] s[i]).0@ != (#[trigger] s[j]).0@
}

/// The entries as a map from key text to value; a later entry of a key
/// overrides an earlier one.
pub open spec fn key_map<C>(s: Seq<(String, C)>) -> Map<Seq<char>, C>
    decreases s.len(),
{
    if s.len() == 0 {
        Map::empty()
    } else {
        key_map(s.drop_last()).insert(s.last().0@, s.last().1)
    }
}

/// The map of a list of entries is finite.
pub proof fn lemma_key_map_finite<C>(s: Seq<(String, C)>)
    ensures
        key_map(s).dom().finite(),
    decreases s.len(),
{
    if s.len() > 0 {
        lemma_key_map_finite(s.drop_last());
    }
}

/// The map has a key exactly where some entry has it.
pub proof fn lemma_key_map_dom<C>(s: Seq<(String, C)>, key: Seq<char>)
    ensures
        key_map(s).dom().contains(key) <==> has_key(s, key),
    decreases s.len(),
{
    if s.len() > 0 {
        lemma_key_map_dom(s.drop_last(), key);
        if has_key(s.drop_last(), key) {
            let i = choose|i: int| 0 <= i < s.drop_last().len() && (#[trigger] s.drop_last()[i]).0@ == key;
            assert(s[i] == s.drop_last()[i]);
        }
        if has_key(s, key) {
            let i = choose|i: int| 0 <= i < s.len() && (#[trigger] s[i]).0@ == key;
            if i < s.len() - 1 {
                assert(s.drop_last()[i] == s[i]);
            }
        }
        assert(s[s.len() - 1] == s.last());
    }
}

/// Where keys are unique, the map gives each entry's value for its key.
pub proof fn lemma_key_map_value<C>(s: Seq<(String, C)>, i: int)
    requires
        unique_keys(s),
        0 <= i < s.len(),
    ensures
        key_map(s).dom().contains(s[i].0@),
        key_map(s)[s[i].0@] == s[i].1,
    decreases s.len(),
{
    lemma_key_map_dom(s, s[i].0@);
    if i < s.len() - 1 {
        let t = s.drop_last();
        assert(t[i] == s[i]);
        assert(unique_keys(t)) by {
            assert forall|a: int, b: int| 0 <= a < t.len() && 0 <= b < t.len() && a != b implies (
            #[trigger] t[a]).0@ != (#[trigger] t[b]).0@ by {
                assert(t[a] == s[a] && t[b] == s[b]);
            }
        }
        lemma_key_map_value(t, i);
        assert(s[i].0@ != s[s.len() - 1].0@);
    }
}

/// Removing a key from the entries removes it from the map.
pub proof fn lemma_key_map_filter<C>(s: Seq<(String, C)>, key: Seq<char>)
    ensures
        key_map(s.filter(other_key::<C>(key))) == key_map(s).remove(key),
    decreases s.len(),
{
    reveal(Seq::filter);
    if s.len() == 0 {
        assert(key_map(s).remove(key) =~= Map::<Seq<char>, C>::empty());
    } else {
        lemma_key_map_filter(s.drop_last(), key);
        let m = key_map(s.drop_last());
        let f = s.drop_last().filter(other_key::<C>(key));
        if s.last().0@ != key {
            assert(s.filter(other_key::<C>(key)) == f.push(s.last()));
            assert(f.push(s.last()).drop_last() =~= f);
            assert(m.remove(key).insert(s.last().0@, s.last().1) =~= m.insert(s.last().0@, s.last().1).remove(key));
        } else {
            assert(s.filter(other_key::<C>(key)) == f);
            assert(m.remove(key) =~= m.insert(s.last().0@, s.last().1).remove(key));
        }
    }
}

/// Where keys are unique, replacing the value of an entry sets that key in
/// the map.
pub proof fn lemma_key_map_update<C>(s: Seq<(String, C)>, p: int, entry: (String, C))
    requires
        unique_keys(s),
        0 <= p < s.len(),
        entry.0@ == s[p].0@,
    ensures
        key_map(s.update(p, entry)) == key_map(s).insert(entry.0@, entry.1),
    decreases s.len(),
{
    let u = s.update(p, entry);
    let t = s.drop_last();
    if p == s.len() - 1 {
        assert(u.drop_last() =~= t);
        assert(key_map(t).insert(entry.0@, entry.1) =~= key_map(t).insert(s.last().0@, s.last().1).insert(entry.0@, entry.1));
    } else {
        assert(unique_keys(t)) by {
            assert forall|a: int, b: int| 0 <= a < t.len() && 0 <= b < t.len() && a != b implies (
            #[trigger] t[a]).0@ != (#[trigger] t[b]).0@ by {
                assert(t[a] == s[a] && t[b] == s[b]);
            }
        }
        assert(t[p] == s[p]);
        lemma_key_map_update(t, p, entry);
        assert(u.drop_last() =~= t.update(p, entry));
        assert(u.last() == s.last());
        assert(s[p].0@ != s[s.len() - 1].0@);
        let m = key_map(t);
        assert(m.insert(entry.0@, entry.1).insert(s.last().0@, s.last().1) =~= m.insert(s.last().0@, s.last().1).insert(entry.0@, entry.1));
    }
}

/// Where keys are unique, removing the entry at `i` removes its key from
/// the map.
pub proof fn lemma_key_map_remove_at<C>(s: Seq<(String, C)>, i: int)
    requires
        unique_keys(s),
        0 <= i < s.len(),
    ensures
        key_map(s.remove(i)) == key_map(s).remove(s[i].0@),
    decreases s.len(),
{
    let t = s.drop_last();
    let k = s[i].0@;
    assert(unique_keys(t)) by {
        assert forall|a: int, b: int| 0 <= a < t.len() && 0 <= b < t.len() && a != b implies (
        #[trigger] t[a]).0@ != (#[trigger] t[b]).0@ by {
            assert(t[a] == s[a] && t[b] == s[b]);
        }
    }
    if i == s.len() - 1 {
        assert(s.remove(i) =~= t);
        lemma_key_map_dom(t, k);
        if has_key(t, k) {
            let j = choose|j: int| 0 <= j < t.len() && (#[trigger] t[j]).0@ == k;
            assert(t[j] == s[j]);
        }
        assert(key_map(t) =~= key_map(t).insert(k, s.last().1).remove(k));
    } else {
        assert(t[i] == s[i]);
        lemma_key_map_remove_at(t, i);
        assert(s.remove(i).drop_last() =~= t.remove(i));
        assert(s.remove(i).last() == s.last());
        assert(s[i].0@ != s[s.len() - 1].0@);
        let m = key_map(t);
        assert(m.remove(k).insert(s.last().0@, s.last().1) =~= m.insert(s.last().0@, s.last().1).remove(k));
    }
}

/// Adding an entry with a new key keeps keys unique.
pub proof fn lemma_unique_push<C>(s: Seq<(String, C)>, entry: (String, C))
    requires
        unique_keys(s),
        !has_key(s, entry.0@),
    ensures
        unique_keys(s.push(entry)),
{
    let u = s.push(entry);
    assert forall|a: int, b: int| 0 <= a < u.len() && 0 <= b < u.len() && a != b implies (
    #[trigger] u[a]).0@ != (#[trigger] u[b]).0@ by {
        if a == s.len() {
            assert(u[b] == s[b]);
        } else if b == s.len() {
            assert(u[a] == s[a]);
        } else {
            assert(u[a] == s[a] && u[b] == s[b]);
        }
    }
}

/// Replacing an entry by one with the same key keeps keys unique.
pub proof fn lemma_unique_update<C>(s: Seq<(String, C)>, p: int, entry: (String, C))
    requires
        unique_keys(s),
        0 <= p < s.len(),
        entry.0@ == s[p].0@,
    ensures
        unique_keys(s.update(p, entry)),
{
    let u = s.update(p, entry);
    assert forall|a: int, b: int| 0 <= a < u.len() && 0 <= b < u.len() && a != b implies (
    #[trigger] u[a]).0@ != (#[trigger] u[b]).0@ by {
        assert(u[a].0@ == s[a].0@ && u[b].0@ == s[b].0@);
    }
}

/// Removing an entry keeps keys unique.
pub proof fn lemma_unique_remove<C>(s: Seq<(String, C)>, p: int)
    requires
        unique_keys(s),
        0 <= p < s.len(),
    ensures
        unique_keys(s.remove(p)),
{
    let u = s.remove(p);
    assert forall|a: int, b: int| 0 <= a < u.len() && 0 <= b < u.len() && a != b implies (
    #[trigger] u[a]).0@ != (#[trigger] u[b]).0@ by {
        let a2 = if a < p { a } else { a + 1 };
        let b2 = if b < p { b } else { b + 1 };
        assert(u[a] == s[a2] && u[b] == s[b2]);
    }
}

/// The position of the entry with key `key`, if there is one.
pub fn find_key<C>(v: &Vec<(String, C)>, key: &String) -> (r: Option<usize>)
    ensures
        match r {
            Some(i) => i < v@.len() && v@[i as int].0@ == key@,
            None => !has_key(v@, key@),
        },
{
    let mut i: usize = 0;
    while i < v.len()
        invariant
            i <= v.len(),
            forall|k: int| 0 <= k < i ==> (#[trigger] v@[k]).0@ != key@,
        decreases v.len() - i,
    {
        if v[i].0 == *key {
            return Some(i);
        }
        i += 1;
    }
    None
}

} // verus!
