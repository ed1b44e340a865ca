//! Byte-keyed association lists and id lists: the executable shape of the
//! ledger's maps and indices, with their mathematical `Map` and `Seq` views.

use vstd::prelude::*;

verus! {

/// Whether some entry of the association list carries the key `k`.
pub open spec fn has_key<V>(s: Seq<(Vec<u8>, V)>, k: Seq<u8>) -> bool {
    exists|i: int| 0 <= i < s.len() && (#[trigger] s[i]).0@ == k
}

/// No two entries carry the same key.
pub open spec fn keys_distinct<V>(s: Seq<(Vec<u8>, V)>) -> bool {
    forall|i: int, j: int| 0 <= i < j < s.len() ==> (#[trigger] s[i]).0@ != (#[trigger] s[j]).0@
}

/// The map an association list stands for; later entries shadow earlier ones,
/// though the stores below never hold a key twice.
pub open spec fn assoc_map<V: View>(s: Seq<(Vec<u8>, V)>) -> Map<Seq<u8>, V::V>
    decreases s.len(),
{
    if s.len() == 0 {
        Map::empty()
    } else {
        assoc_map(s.drop_last()).insert(s.last().0@, s.last().1@)
    }
}

/// The map's domain is exactly the set of keys on the list, and with distinct
/// keys each entry is the map's value at its key.
pub proof fn lemma_assoc_map_properties<V: View>(s: Seq<(Vec<u8>, V)>)
    ensures
        forall|k: Seq<u8>| #[trigger] assoc_map(s).dom().contains(k) <==> has_key(s, k),
        keys_distinct(s) ==> forall|i: int|
            0 <= i < s.len() ==> assoc_map(s).dom().contains((#[trigger] s[i]).0@) && assoc_map(s)[s[i].0@]
                == s[i].1@,
    decreases s.len(),
{
    if s.len() > 0 {
        let dl = s.drop_last();
        lemma_assoc_map_properties(dl);
        assert forall|k: Seq<u8>| #[trigger] assoc_map(s).dom().contains(k) implies has_key(s, k) by {
            if k == s.last().0@ {
                assert((s[s.len() - 1]).0@ == k);
            } else {
                assert(assoc_map(dl).dom().contains(k));
                assert(has_key(dl, k));
                let i = choose|i: int| 0 <= i < dl.len() && (#[trigger] dl[i]).0@ == k;
                assert((s[i]).0@ == k);
            }
        }
        assert forall|k: Seq<u8>| has_key(s, k) implies assoc_map(s).dom().contains(k) by {
            let i = choose|i: int| 0 <= i < s.len() && (#[trigger] s[i]).0@ == k;
            if i < s.len() - 1 {
                assert((dl[i]).0@ == k);
                assert(has_key(dl, k));
                assert(assoc_map(dl).dom().contains(k));
            }
        }
        if keys_distinct(s) {
            assert(keys_distinct(dl));
            assert forall|i: int| 0 <= i < s.len() implies assoc_map(s).dom().contains(
                (#[trigger] s[i]).0@,
            ) && assoc_map(s)[s[i].0@] == s[i].1@ by {
                if i < s.len() - 1 {
                    assert((dl[i]).0@ == s[i].0@ && dl[i].1 == s[i].1);
                    assert(s[i].0@ != s[s.len() - 1].0@);
                }
            }
        }
    }
}

/// Compare two byte strings.
pub fn bytes_eq(a: &Vec<u8>, b: &Vec<u8>) -> (r: bool)
    ensures
        r == (a@ == b@),
{
    if a.len() != b.len() {
        return false;
    }
    let mut i: usize = 0;
    while i < a.len()
        invariant
            i <= a.len(),
            a@.len() == b@.len(),
            forall|j: int| 0 <= j < i ==> a@[j] == b@[j],
        decreases a.len() - i,
    {
        if a[i] != b[i] {
            return false;
        }
        i = i + 1;
    }
    proof {
        assert(a@ =~= b@);
    }
    true
}

/// Find the index of the entry carrying `key`, if any.
pub fn assoc_find_index<V>(list: &Vec<(Vec<u8>, V)>, key: &Vec<u8>) -> (r: Option<usize>)
    ensures
        match r {
            Some(i) => i < list@.len() && list@[i as int].0@ == key@,
            None => !has_key(list@, key@),
        },
{
    let mut i: usize = 0;
    while i < list.len()
        invariant
            i <= list.len(),
            forall|j: int| 0 <= j < i ==> (#[trigger] list@[j]).0@ != key@,
        decreases list.len() - i,
    {
        if bytes_eq(&list[i].0, key) {
            return Some(i);
        }
        i = i + 1;
    }
    None
}

/// Look the value for `key` up.
pub fn assoc_get<'a, V: View>(list: &'a Vec<(Vec<u8>, V)>, key: &Vec<u8>) -> (r: Option<&'a V>)
    requires
        keys_distinct(list@),
    ensures
        match r {
            Some(v) => assoc_map(list@).dom().contains(key@) && assoc_map(list@)[key@] == v@,
            None => !assoc_map(list@).dom().contains(key@),
        },
{
    proof {
        lemma_assoc_map_properties(list@);
    }
    match assoc_find_index(list, key) {
        Some(i) => Some(&list[i].1),
        None => None,
    }
}

/// Bind `key` to `val`, replacing any existing binding.
pub fn assoc_set<V: View>(list: &mut Vec<(Vec<u8>, V)>, key: Vec<u8>, val: V)
    requires
        keys_distinct(old(list)@),
    ensures
        keys_distinct(final(list)@),
        assoc_map(final(list)@) == assoc_map(old(list)@).insert(key@, val@),
{
    proof {
        lemma_assoc_map_properties(list@);
    }
    let ghost s0 = list@;
    match assoc_find_index(list, &key) {
        Some(i) => {
            let ghost kv = key@;
            let ghost vv = val@;
            list.set(i, (key, val));
            proof {
                let s1 = list@;
                assert forall|a: int, b: int| 0 <= a < b < s1.len() implies (#[trigger] s1[a]).0@
                    != (#[trigger] s1[b]).0@ by {
                    assert(s1[a].0@ == s0[a].0@ && s1[b].0@ == s0[b].0@);
                }
                lemma_assoc_map_properties(s1);
                let m1 = assoc_map(s1);
                let m2 = assoc_map(s0).insert(kv, vv);
                assert forall|k: Seq<u8>| #[trigger] m1.dom().contains(k) implies m2.dom().contains(
                    k,
                ) && m1[k] == m2[k] by {
                    let j = choose|j: int| 0 <= j < s1.len() && (#[trigger] s1[j]).0@ == k;
                    if j == i {
                        assert(k == kv && m1[k] == vv);
                    } else {
                        assert((s0[j]).0@ == k);
                        assert(has_key(s0, k));
                        assert(assoc_map(s0).dom().contains(k));
                        assert(k != kv);
                        assert(m1[k] == s1[j].1@ && assoc_map(s0)[k] == s0[j].1@);
                    }
                }
                assert forall|k: Seq<u8>| #[trigger] m2.dom().contains(k) implies m1.dom().contains(
                    k,
                ) by {
                    if k == kv {
                        assert((s1[i as int]).0@ == k);
                        assert(has_key(s1, k));
                    } else {
                        assert(assoc_map(s0).dom().contains(k));
                        assert(has_key(s0, k));
                        let j = choose|j: int| 0 <= j < s0.len() && (#[trigger] s0[j]).0@ == k;
                        assert((s1[j]).0@ == k);
                        assert(has_key(s1, k));
                    }
                }
                assert(m1 =~= m2);
            }
        },
        None => {
            proof {
                assert(!has_key(s0, key@));
            }
            list.push((key, val));
            proof {
                let s1 = list@;
                assert(s1.drop_last() =~= s0);
                assert forall|a: int, b: int| 0 <= a < b < s1.len() implies (#[trigger] s1[a]).0@
                    != (#[trigger] s1[b]).0@ by {
                    if b == s1.len() - 1 {
                        assert((s0[a]).0@ == s1[a].0@);
                    }
                }
                assert(assoc_map(s1) == assoc_map(s0).insert(key@, val@));
            }
        },
    }
}

/// Drop the binding for `key`. Says whether one was there; the order of the
/// remaining entries is not preserved.
pub fn assoc_remove<V: View>(list: &mut Vec<(Vec<u8>, V)>, key: &Vec<u8>) -> (found: bool)
    requires
        keys_distinct(old(list)@),
    ensures
        keys_distinct(final(list)@),
        found == assoc_map(old(list)@).dom().contains(key@),
        assoc_map(final(list)@) == assoc_map(old(list)@).remove(key@),
{
    proof {
        lemma_assoc_map_properties(list@);
    }
    let ghost s0 = list@;
    match assoc_find_index(list, key) {
        Some(i) => {
            list.swap_remove(i);
            proof {
                assert forall|a: int, b: int| 0 <= a < b < list@.len() implies (#[trigger] list@[a]).0@
                    != (#[trigger] list@[b]).0@ by {
                    assert(list@[a] == if a == i { s0[s0.len() - 1] } else { s0[a] });
                    assert(list@[b] == if b == i { s0[s0.len() - 1] } else { s0[b] });
                }
                lemma_assoc_map_properties(list@);
                assert forall|k: Seq<u8>| #[trigger] assoc_map(list@).dom().contains(k) implies assoc_map(
                    s0,
                ).remove(key@).dom().contains(k) by {
                    let j = choose|j: int| 0 <= j < list@.len() && (#[trigger] list@[j]).0@ == k;
                    if j == i {
                        assert(s0[s0.len() - 1].0@ == k);
                    } else {
                        assert(s0[j].0@ == k);
                    }
                }
                assert forall|k: Seq<u8>| #[trigger] assoc_map(s0).remove(key@).dom().contains(
                    k,
                ) implies assoc_map(list@).dom().contains(k) && assoc_map(list@)[k] == assoc_map(s0).remove(
                    key@,
                )[k] by {
                    let j = choose|j: int| 0 <= j < s0.len() && (#[trigger] s0[j]).0@ == k;
                    if j == i {
                        assert(false);
                    } else if j == s0.len() - 1 {
                        assert(list@[i as int].0@ == k && list@[i as int].1 == s0[j].1);
                    } else {
                        assert(list@[j].0@ == k && list@[j].1 == s0[j].1);
                    }
                }
                assert(assoc_map(list@) =~= assoc_map(s0).remove(key@));
            }
            true
        },
        None => {
            proof {
                assert(assoc_map(list@) =~= assoc_map(s0).remove(key@));
            }
            false
        },
    }
}

/// The byte strings an id list holds.
pub open spec fn id_views(s: Seq<Vec<u8>>) -> Seq<Seq<u8>> {
    s.map_values(|v: Vec<u8>| v@)
}

/// An id list and its views have the same length.
pub broadcast proof fn lemma_id_views_len(s: Seq<Vec<u8>>)
    ensures
        #![trigger id_views(s)]
        id_views(s).len() == s.len(),
{
}

/// The first occurrences of the byte strings on a list, in order.
pub open spec fn dedup_first(s: Seq<Seq<u8>>) -> Seq<Seq<u8>>
    decreases s.len(),
{
    if s.len() == 0 {
        s
    } else {
        let d = dedup_first(s.drop_last());
        if d.contains(s.last()) {
            d
        } else {
            d.push(s.last())
        }
    }
}

/// Deduplication keeps exactly the elements and drops every repetition.
pub proof fn lemma_dedup_first(s: Seq<Seq<u8>>)
    ensures
        dedup_first(s).no_duplicates(),
        forall|k: Seq<u8>| #[trigger] dedup_first(s).contains(k) <==> s.contains(k),
    decreases s.len(),
{
    if s.len() > 0 {
        let dl = s.drop_last();
        lemma_dedup_first(dl);
        let d = dedup_first(dl);
        assert forall|k: Seq<u8>| #[trigger] dedup_first(s).contains(k) implies s.contains(k) by {
            if d.contains(k) {
                assert(dl.contains(k));
                let i = choose|i: int| 0 <= i < dl.len() && dl[i] == k;
                assert(s[i] == k);
            } else {
                assert(s[s.len() - 1] == k);
            }
        }
        assert forall|k: Seq<u8>| s.contains(k) implies #[trigger] dedup_first(s).contains(k) by {
            let i = choose|i: int| 0 <= i < s.len() && s[i] == k;
            if i < s.len() - 1 {
                assert(dl[i] == k);
                assert(dl.contains(k));
                assert(d.contains(k));
                if !d.contains(s.last()) {
                    let j = choose|j: int| 0 <= j < d.len() && d[j] == k;
                    assert(dedup_first(s)[j] == k);
                }
            } else {
                if d.contains(s.last()) {
                    assert(d.contains(k));
                } else {
                    assert(dedup_first(s)[d.len() as int] == k);
                }
            }
        }
        if !d.contains(s.last()) {
            assert forall|a: int, b: int|
                0 <= a < b < dedup_first(s).len() implies dedup_first(s)[a] != dedup_first(
                s,
            )[b] by {
                if b < d.len() {
                    assert(d[a] != d[b]);
                } else {
                    assert(d.contains(d[a]));
                }
            }
        }
    }
}

/// `base` followed by the first occurrences of whatever `extra` adds.
pub open spec fn merge_ids(base: Seq<Seq<u8>>, extra: Seq<Seq<u8>>) -> Seq<Seq<u8>>
    decreases extra.len(),
{
    if extra.len() == 0 {
        base
    } else {
        let m = merge_ids(base, extra.drop_last());
        if m.contains(extra.last()) {
            m
        } else {
            m.push(extra.last())
        }
    }
}

/// Merging keeps exactly the union of the elements and never duplicates.
pub proof fn lemma_merge_ids(base: Seq<Seq<u8>>, extra: Seq<Seq<u8>>)
    requires
        base.no_duplicates(),
    ensures
        merge_ids(base, extra).no_duplicates(),
        forall|k: Seq<u8>| #[trigger] merge_ids(base, extra).contains(k) <==> base.contains(k)
            || extra.contains(k),
    decreases extra.len(),
{
    if extra.len() > 0 {
        let dl = extra.drop_last();
        lemma_merge_ids(base, dl);
        let m = merge_ids(base, dl);
        assert forall|k: Seq<u8>| #[trigger] merge_ids(base, extra).contains(k) implies base.contains(
            k,
        ) || extra.contains(k) by {
            if m.contains(k) {
                if dl.contains(k) {
                    let i = choose|i: int| 0 <= i < dl.len() && dl[i] == k;
                    assert(extra[i] == k);
                }
            } else {
                assert(extra[extra.len() - 1] == k);
            }
        }
        assert forall|k: Seq<u8>| base.contains(k) || extra.contains(k) implies #[trigger] merge_ids(
            base,
            extra,
        ).contains(k) by {
            if base.contains(k) || dl.contains(k) {
                assert(m.contains(k));
                if !m.contains(extra.last()) {
                    let j = choose|j: int| 0 <= j < m.len() && m[j] == k;
                    assert(merge_ids(base, extra)[j] == k);
                }
            } else {
                let i = choose|i: int| 0 <= i < extra.len() && extra[i] == k;
                if i < extra.len() - 1 {
                    assert(dl[i] == k);
                } else {
                    if m.contains(extra.last()) {
                        assert(m.contains(k));
                    } else {
                        assert(merge_ids(base, extra)[m.len() as int] == k);
                    }
                }
            }
        }
        if !m.contains(extra.last()) {
            assert forall|a: int, b: int|
                0 <= a < b < merge_ids(base, extra).len() implies merge_ids(base, extra)[a]
                != merge_ids(base, extra)[b] by {
                if b < m.len() {
                    assert(m[a] != m[b]);
                } else {
                    assert(m.contains(m[a]));
                }
            }
        }
    }
}

/// Copy a byte string.
pub fn clone_bytes(v: &Vec<u8>) -> (r: Vec<u8>)
    ensures
        r@ == v@,
{
    let mut r: Vec<u8> = Vec::new();
    let mut i: usize = 0;
    while i < v.len()
        invariant
            i <= v.len(),
            r@ == v@.subrange(0, i as int),
        decreases v.len() - i,
    {
        r.push(v[i]);
        i = i + 1;
        assert(r@ =~= v@.subrange(0, i as int));
    }
    proof {
        assert(v@.subrange(0, v@.len() as int) =~= v@);
    }
    r
}

/// Copy an id list.
pub fn clone_id_list(v: &Vec<Vec<u8>>) -> (r: Vec<Vec<u8>>)
    ensures
        id_views(r@) == id_views(v@),
{
    let mut r: Vec<Vec<u8>> = Vec::new();
    let mut i: usize = 0;
    while i < v.len()
        invariant
            i <= v.len(),
            id_views(r@) == id_views(v@).subrange(0, i as int),
        decreases v.len() - i,
    {
        proof {
            lemma_id_views_len(r@);
        }
        r.push(clone_bytes(&v[i]));
        i = i + 1;
        assert(id_views(r@) =~= id_views(v@).subrange(0, i as int));
    }
    proof {
        lemma_id_views_len(v@);
        assert(id_views(v@).subrange(0, id_views(v@).len() as int) =~= id_views(v@));
    }
    r
}

/// Keep the first occurrence of every byte string on the list.
pub fn dedup_ids(input: &Vec<Vec<u8>>) -> (r: Vec<Vec<u8>>)
    ensures
        id_views(r@) == dedup_first(id_views(input@)),
{
    let ghost views = id_views(input@);
    let mut r: Vec<Vec<u8>> = Vec::new();
    let mut i: usize = 0;
    while i < input.len()
        invariant
            i <= input.len(),
            views == id_views(input@),
            id_views(r@) == dedup_first(views.subrange(0, i as int)),
        decreases input.len() - i,
    {
        proof {
            assert(views.subrange(0, i + 1).drop_last() =~= views.subrange(0, i as int));
            assert(views.subrange(0, i + 1).last() == views[i as int]);
        }
        match find_id(&r, &input[i]) {
            Some(j) => {
                proof {
                    assert(id_views(r@)[j as int] == views[i as int]);
                    assert(id_views(r@).contains(views[i as int]));
                }
            },
            None => {
                r.push(clone_bytes(&input[i]));
                proof {
                    assert(id_views(r@) =~= dedup_first(views.subrange(0, i as int)).push(
                        views[i as int],
                    ));
                }
            },
        }
        i = i + 1;
    }
    proof {
        assert(views.subrange(0, views.len() as int) =~= views);
    }
    r
}

/// Append to `list` every byte string of `extra` it does not hold yet.
pub fn extend_ids(list: &mut Vec<Vec<u8>>, extra: &Vec<Vec<u8>>)
    ensures
        id_views(final(list)@) == merge_ids(id_views(old(list)@), id_views(extra@)),
{
    let ghost base = id_views(old(list)@);
    let ghost views = id_views(extra@);
    let mut i: usize = 0;
    while i < extra.len()
        invariant
            i <= extra.len(),
            base == id_views(old(list)@),
            views == id_views(extra@),
            id_views(list@) == merge_ids(base, views.subrange(0, i as int)),
        decreases extra.len() - i,
    {
        proof {
            assert(views.subrange(0, i + 1).drop_last() =~= views.subrange(0, i as int));
            assert(views.subrange(0, i + 1).last() == views[i as int]);
        }
        match find_id(list, &extra[i]) {
            Some(j) => {
                proof {
                    assert(id_views(list@)[j as int] == views[i as int]);
                    assert(id_views(list@).contains(views[i as int]));
                }
            },
            None => {
                list.push(clone_bytes(&extra[i]));
                proof {
                    assert(id_views(list@) =~= merge_ids(base, views.subrange(0, i as int)).push(
                        views[i as int],
                    ));
                }
            },
        }
        i = i + 1;
    }
    proof {
        assert(views.subrange(0, views.len() as int) =~= views);
    }
}

/// Find the index of `key` on an id list.
pub fn find_id(list: &Vec<Vec<u8>>, key: &Vec<u8>) -> (r: Option<usize>)
    ensures
        match r {
            Some(i) => i < list@.len() && list@[i as int]@ == key@,
            None => !id_views(list@).contains(key@),
        },
{
    let mut i: usize = 0;
    while i < list.len()
        invariant
            i <= list.len(),
            forall|j: int| 0 <= j < i ==> (#[trigger] list@[j])@ != key@,
        decreases list.len() - i,
    {
        if bytes_eq(&list[i], key) {
            return Some(i);
        }
        i = i + 1;
    }
    proof {
        assert forall|j: int| 0 <= j < id_views(list@).len() implies #[trigger] id_views(list@)[j]
            != key@ by {
            assert((list@[j])@ != key@);
        }
    }
    None
}

} // verus!
