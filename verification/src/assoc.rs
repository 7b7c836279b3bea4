use vstd::prelude::*;

verus! {

/// The keys of an association list, in order.
pub open spec fn assoc_keys<V>(s: Seq<(String, V)>) -> Seq<Seq<char>> {
    s.map_values(|e: (String, V)| e.0@)
}

/// No key occurs twice.
pub open spec fn keys_unique<V>(s: Seq<(String, V)>) -> bool {
    forall|i: int, j: int| 0 <= i < s.len() && 0 <= j < s.len() && i != j ==> #[trigger] s[i].0@ != #[trigger] s[j].0@
}

/// The map an association list stands for: each key to the value of its last
/// entry.
pub open spec fn assoc_map<V>(s: Seq<(String, V)>) -> Map<Seq<char>, V>
    decreases s.len(),
{
    if s.len() == 0 {
        Map::empty()
    } else {
        assoc_map(s.drop_last()).insert(s.last().0@, s.last().1)
    }
}

pub proof fn lemma_assoc_map_domain<V>(s: Seq<(String, V)>, k: Seq<char>)
    ensures
        assoc_map(s).contains_key(k) <==> exists|i: int| 0 <= i < s.len() && #[trigger] s[i].0@ == k,
    decreases s.len(),
{
    if s.len() > 0 {
        lemma_assoc_map_domain(s.drop_last(), k);
        if assoc_map(s).contains_key(k) {
            if s.last().0@ != k {
                let i = choose|i: int| 0 <= i < s.drop_last().len() && #[trigger] s.drop_last()[i].0@ == k;
                assert(s[i].0@ == k);
            } else {
                assert(s[s.len() - 1].0@ == k);
            }
        }
        if exists|i: int| 0 <= i < s.len() && #[trigger] s[i].0@ == k {
            let i = choose|i: int| 0 <= i < s.len() && #[trigger] s[i].0@ == k;
            if i < s.len() - 1 {
                assert(s.drop_last()[i].0@ == k);
            }
        }
    }
}

pub proof fn lemma_assoc_map_value<V>(s: Seq<(String, V)>, i: int)
    requires
        keys_unique(s),
        0 <= i < s.len(),
    ensures
        assoc_map(s).contains_key(s[i].0@),
        assoc_map(s)[s[i].0@] == s[i].1,
    decreases s.len(),
{
    if i < s.len() - 1 {
        assert(keys_unique(s.drop_last()));
        lemma_assoc_map_value(s.drop_last(), i);
        assert(s.last().0@ != s[i].0@);
    }
}

pub proof fn lemma_assoc_update<V>(s: Seq<(String, V)>, i: int, k: String, v: V)
    requires
        keys_unique(s),
        0 <= i < s.len(),
        s[i].0@ == k@,
    ensures
        keys_unique(s.update(i, (k, v))),
        assoc_map(s.update(i, (k, v))) == assoc_map(s).insert(k@, v),
    decreases s.len(),
{
    let t = s.update(i, (k, v));
    assert(keys_unique(t)) by {
        assert forall|a: int, b: int| 0 <= a < t.len() && 0 <= b < t.len() && a != b implies #[trigger] t[a].0@ != #[trigger] t[b].0@ by {
            assert(s[a].0@ != s[b].0@);
        }
    }
    if i == s.len() - 1 {
        assert(t.drop_last() =~= s.drop_last());
        assert(assoc_map(t) =~= assoc_map(s).insert(k@, v));
    } else {
        assert(keys_unique(s.drop_last()));
        lemma_assoc_update(s.drop_last(), i, k, v);
        assert(t.drop_last() =~= s.drop_last().update(i, (k, v)));
        assert(s.last().0@ != k@);
        assert(assoc_map(t) =~= assoc_map(s).insert(k@, v));
    }
}

pub proof fn lemma_assoc_push<V>(s: Seq<(String, V)>, k: String, v: V)
    requires
        keys_unique(s),
        forall|i: int| 0 <= i < s.len() ==> #[trigger] s[i].0@ != k@,
    ensures
        keys_unique(s.push((k, v))),
        assoc_map(s.push((k, v))) == assoc_map(s).insert(k@, v),
{
    let t = s.push((k, v));
    assert(t.drop_last() =~= s);
    assert forall|a: int, b: int| 0 <= a < t.len() && 0 <= b < t.len() && a != b implies #[trigger] t[a].0@ != #[trigger] t[b].0@ by {
        if a < s.len() && b < s.len() {
            assert(s[a].0@ != s[b].0@);
        }
    }
}

/// The index of the entry with key `k`, if there is one.
pub fn assoc_find<V>(v: &Vec<(String, V)>, k: &str) -> (r: Option<usize>)
    ensures
        r matches Some(i) ==> i < v.len() && v@[i as int].0@ == k@,
        r is None ==> forall|i: int| 0 <= i < v.len() ==> #[trigger] v@[i].0@ != k@,
        r is None <==> !assoc_map(v@).contains_key(k@),
{
    proof { lemma_assoc_map_domain(v@, k@); }
    let want = String::from_str(k);
    let mut i: usize = 0;
    while i < v.len()
        invariant
            0 <= i <= v.len(),
            want@ == k@,
            forall|j: int| 0 <= j < i ==> #[trigger] v@[j].0@ != k@,
        decreases v.len() - i,
    {
        if v[i].0 == want {
            assert(v@[i as int].0@ == k@);
            proof { lemma_assoc_map_domain(v@, k@); }
            return Some(i);
        }
        i = i + 1;
    }
    None
}

/// Sets the value of key `k` to `val`, replacing its entry or adding one.
pub fn assoc_insert<V>(v: &mut Vec<(String, V)>, k: String, val: V)
    requires
        keys_unique(old(v)@),
    ensures
        keys_unique(final(v)@),
        assoc_map(final(v)@) == assoc_map(old(v)@).insert(k@, val),
        forall|i: int| 0 <= i < old(v)@.len() ==> #[trigger] assoc_keys(final(v)@).contains(old(v)@[i].0@),
{
    match assoc_find(v, k.as_str()) {
        Some(i) => {
            proof { lemma_assoc_update(v@, i as int, k, val); }
            let ghost before = v@;
            v.set(i, (k, val));
            proof {
                assert forall|j: int| 0 <= j < before.len() implies #[trigger] assoc_keys(v@).contains(before[j].0@) by {
                    assert(assoc_keys(v@)[j] == before[j].0@);
                }
            }
        },
        None => {
            proof { lemma_assoc_push(v@, k, val); }
            let ghost before = v@;
            v.push((k, val));
            proof {
                assert forall|j: int| 0 <= j < before.len() implies #[trigger] assoc_keys(v@).contains(before[j].0@) by {
                    assert(assoc_keys(v@)[j] == before[j].0@);
                }
            }
        },
    }
}

/// The value of key `k`.
pub fn assoc_get<'a, V>(v: &'a Vec<(String, V)>, k: &str) -> (r: Option<&'a V>)
    requires
        keys_unique(v@),
    ensures
        r is Some <==> assoc_map(v@).contains_key(k@),
        r matches Some(x) ==> *x == assoc_map(v@)[k@],
{
    match assoc_find(v, k) {
        Some(i) => {
            proof { lemma_assoc_map_value(v@, i as int); }
            Some(&v[i].1)
        },
        None => None,
    }
}

} // verus!
