//! Association lists keyed by strings, used wherever the scraper keeps
//! a small map: per-asset coverage in the manifest, per-asset start
//! dates. The keys are unique; `assoc_get` is the lookup the update
//! contracts are stated over.

use vstd::prelude::*;

verus! {

/// First value bound to `key` in an association list, if any.
pub open spec fn assoc_get<V>(s: Seq<(String, V)>, key: Seq<char>) -> Option<V>
    decreases s.len(),
{
    if s.len() == 0 {
        Option::None
    } else if s[0].0@ == key {
        Option::Some(s[0].1)
    } else {
        assoc_get(s.drop_first(), key)
    }
}

/// Updating the value at the unique index bound to `key` rebinds `key`
/// and nothing else.
pub proof fn lemma_assoc_get_update<V>(s: Seq<(String, V)>, t: Seq<(String, V)>, i: int, key: Seq<char>)
    requires
        0 <= i < s.len(),
        t.len() == s.len(),
        s[i].0@ == key,
        t[i].0@ == key,
        forall|k: int| 0 <= k < i ==> (#[trigger] s[k]).0@ != key,
        forall|k: int| 0 <= k < s.len() && k != i ==> t[k] == s[k],
    ensures
        assoc_get(t, key) == Option::Some(t[i].1),
        forall|other: Seq<char>| other != key ==> assoc_get(t, other) == assoc_get(s, other),
    decreases s.len(),
{
    if i == 0 {
        assert forall|other: Seq<char>| other != key implies assoc_get(t, other) == assoc_get(
            s,
            other,
        ) by {
            assert(t.drop_first() =~= s.drop_first());
            assert(assoc_get(t, other) == assoc_get(t.drop_first(), other));
            assert(assoc_get(s, other) == assoc_get(s.drop_first(), other));
        }
    } else {
        lemma_assoc_get_update(s.drop_first(), t.drop_first(), i - 1, key);
        assert(t[0] == s[0]);
        assert(s[0].0@ != key);
        assert(t.drop_first()[i - 1] == t[i]);
        assert(assoc_get(t, key) == assoc_get(t.drop_first(), key));
        assert forall|other: Seq<char>| other != key implies assoc_get(t, other) == assoc_get(
            s,
            other,
        ) by {
            if s[0].0@ != other {
                assert(assoc_get(t, other) == assoc_get(t.drop_first(), other));
                assert(assoc_get(s, other) == assoc_get(s.drop_first(), other));
            }
        }
    }
}

/// Appending a binding for an unbound `key` binds `key` and nothing
/// else.
pub proof fn lemma_assoc_get_push<V>(s: Seq<(String, V)>, entry: (String, V), key: Seq<char>)
    requires
        forall|k: int| 0 <= k < s.len() ==> (#[trigger] s[k]).0@ != key,
        entry.0@ == key,
    ensures
        assoc_get(s.push(entry), key) == Option::Some(entry.1),
        forall|other: Seq<char>| other != key ==> assoc_get(s.push(entry), other) == assoc_get(
            s,
            other,
        ),
    decreases s.len(),
{
    if s.len() == 0 {
        assert(s.push(entry)[0] == entry);
        assert forall|other: Seq<char>| other != key implies assoc_get(s.push(entry), other)
            == assoc_get(s, other) by {
            assert(s.push(entry).drop_first() =~= Seq::<(String, V)>::empty());
            assert(assoc_get(s.push(entry).drop_first(), other) == Option::<V>::None);
            assert(assoc_get(s, other) == Option::<V>::None);
        }
    } else {
        lemma_assoc_get_push(s.drop_first(), entry, key);
        assert(s.push(entry).drop_first() =~= s.drop_first().push(entry));
        assert(s.push(entry)[0] == s[0]);
        assert(s[0].0@ != key);
        assert(assoc_get(s.push(entry), key) == assoc_get(s.drop_first().push(entry), key));
        assert forall|other: Seq<char>| other != key implies assoc_get(s.push(entry), other)
            == assoc_get(s, other) by {
            if s[0].0@ != other {
                assert(assoc_get(s.push(entry), other) == assoc_get(
                    s.drop_first().push(entry),
                    other,
                ));
                assert(assoc_get(s, other) == assoc_get(s.drop_first(), other));
            }
        }
    }
}

} // verus!
