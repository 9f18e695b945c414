use vstd::prelude::*;

verus! {

/// The map denoted by a list of key/value entries: later entries win.
pub open spec fn entries_map<V>(s: Seq<(Seq<char>, V)>) -> Map<Seq<char>, V>
    decreases s.len(),
{
    if s.len() == 0 {
        Map::empty()
    } else {
        entries_map(s.drop_last()).insert(s.last().0, s.last().1)
    }
}

/// No key occurs twice in the entry list.
pub open spec fn keys_unique<V>(s: Seq<(Seq<char>, V)>) -> bool {
    forall|i: int, j: int| 0 <= i < j < s.len() ==> s[i].0 != s[j].0
}

pub proof fn lemma_entries_map_domain<V>(s: Seq<(Seq<char>, V)>, k: Seq<char>)
    ensures
        entries_map(s).contains_key(k) <==> exists|i: int| 0 <= i < s.len() && s[i].0 == k,
    decreases s.len(),
{
    if s.len() > 0 {
        lemma_entries_map_domain(s.drop_last(), k);
        if entries_map(s).contains_key(k) && s.last().0 != k {
            let i = choose|i: int| 0 <= i < s.len() - 1 && s.drop_last()[i].0 == k;
            assert(s[i].0 == k);
        }
        if exists|i: int| 0 <= i < s.len() && s[i].0 == k {
            let i = choose|i: int| 0 <= i < s.len() && s[i].0 == k;
            if i < s.len() - 1 {
                assert(s.drop_last()[i].0 == k);
            }
        }
    }
}

pub proof fn lemma_entries_map_at<V>(s: Seq<(Seq<char>, V)>, i: int)
    requires
        keys_unique(s),
        0 <= i < s.len(),
    ensures
        entries_map(s).contains_key(s[i].0),
        entries_map(s)[s[i].0] == s[i].1,
    decreases s.len(),
{
    if i < s.len() - 1 {
        assert(keys_unique(s.drop_last()));
        lemma_entries_map_at(s.drop_last(), i);
        assert(s.drop_last()[i] == s[i]);
    }
}

pub proof fn lemma_entries_map_update<V>(s: Seq<(Seq<char>, V)>, i: int, v: V)
    requires
        keys_unique(s),
        0 <= i < s.len(),
    ensures
        keys_unique(s.update(i, (s[i].0, v))),
        entries_map(s.update(i, (s[i].0, v))) == entries_map(s).insert(s[i].0, v),
    decreases s.len(),
{
    let t = s.update(i, (s[i].0, v));
    if i == s.len() - 1 {
        assert(t.drop_last() =~= s.drop_last());
    } else {
        assert(keys_unique(s.drop_last()));
        lemma_entries_map_update(s.drop_last(), i, v);
        assert(t.drop_last() =~= s.drop_last().update(i, (s[i].0, v)));
        assert(entries_map(t) =~= entries_map(s).insert(s[i].0, v));
    }
}

pub proof fn lemma_entries_map_push<V>(s: Seq<(Seq<char>, V)>, k: Seq<char>, v: V)
    requires
        keys_unique(s),
        forall|i: int| 0 <= i < s.len() ==> s[i].0 != k,
    ensures
        keys_unique(s.push((k, v))),
        entries_map(s.push((k, v))) == entries_map(s).insert(k, v),
{
    assert(s.push((k, v)).drop_last() =~= s);
}

/// The entries of `v` in reverse order.
pub fn reverse_vec<T>(v: Vec<T>) -> (r: Vec<T>)
    ensures
        r@ == v@.reverse(),
{
    let ghost orig = v@;
    let mut v = v;
    let mut r: Vec<T> = Vec::new();
    while v.len() > 0
        invariant
            v@.len() <= orig.len(),
            v@ =~= orig.subrange(0, v@.len() as int),
            r@ =~= orig.subrange(v@.len() as int, orig.len() as int).reverse(),
        decreases v.len(),
    {
        let ghost n = v@.len() as int;
        let x = v.pop().unwrap();
        r.push(x);
        assert(v@ =~= orig.subrange(0, v@.len() as int));
        assert(r@ =~= orig.subrange(n - 1, orig.len() as int).reverse());
    }
    assert(r@ =~= orig.reverse());
    r
}

/// A copy of a list of strings.
pub fn copy_strings(v: &Vec<String>) -> (r: Vec<String>)
    ensures
        r@ == v@,
{
    let mut r: Vec<String> = Vec::new();
    let mut i: usize = 0;
    while i < v.len()
        invariant
            i <= v.len(),
            r@ == v@.take(i as int),
        decreases v.len() - i,
    {
        r.push(v[i].clone());
        assert(r@ =~= v@.take(i + 1));
        i = i + 1;
    }
    assert(v@.take(i as int) =~= v@);
    r
}

pub open spec fn strs_view(s: Seq<String>) -> Seq<Seq<char>> {
    s.map_values(|x: String| x@)
}

/// Lexicographic order on strings by character code, which for UTF-8 text
/// is the order of their bytes.
pub open spec fn str_le(a: Seq<char>, b: Seq<char>) -> bool
    decreases a.len(),
{
    if a.len() == 0 {
        true
    } else if b.len() == 0 {
        false
    } else if a[0] != b[0] {
        (a[0] as u32) < (b[0] as u32)
    } else {
        str_le(a.skip(1), b.skip(1))
    }
}

pub open spec fn is_sorted(s: Seq<Seq<char>>) -> bool {
    forall|i: int, j: int| 0 <= i < j < s.len() ==> str_le(s[i], s[j])
}

/// Relies on `slice::sort` over `String`: the same strings, in ascending
/// order, strings being ordered by their bytes.
#[verifier::external_body]
pub(crate) fn sort_strings(v: Vec<String>) -> (r: Vec<String>)
    ensures
        strs_view(r@).to_multiset() == strs_view(v@).to_multiset(),
        is_sorted(strs_view(r@)),
{
    let mut v = v;
    v.sort();
    v
}

proof fn lemma_push_contains(s: Seq<Seq<char>>, a: Seq<char>, x: Seq<char>)
    ensures
        s.push(a).contains(x) <==> (s.contains(x) || x == a),
{
    if s.contains(x) {
        let k = choose|k: int| 0 <= k < s.len() && s[k] == x;
        assert(s.push(a)[k] == x);
    }
    if x == a {
        assert(s.push(a)[s.len() as int] == x);
    }
    if s.push(a).contains(x) && x != a {
        let k = choose|k: int| 0 <= k < s.len() + 1 && s.push(a)[k] == x;
        assert(s[k] == x);
    }
}

/// The distinct strings of `v`, in ascending order.
pub fn sorted_distinct(v: &Vec<String>) -> (r: Vec<String>)
    ensures
        strs_view(r@).no_duplicates(),
        is_sorted(strs_view(r@)),
        forall|x: Seq<char>| strs_view(r@).contains(x) <==> strs_view(v@).contains(x),
{
    let mut d: Vec<String> = Vec::new();
    let mut i: usize = 0;
    while i < v.len()
        invariant
            i <= v.len(),
            strs_view(d@).no_duplicates(),
            forall|x: Seq<char>| strs_view(d@).contains(x) <==> strs_view(v@.take(i as int)).contains(x),
        decreases v.len() - i,
    {
        let mut seen = false;
        let mut j: usize = 0;
        while j < d.len()
            invariant
                j <= d.len(),
                i < v.len(),
                seen <==> exists|k: int| 0 <= k < j && d@[k]@ == v@[i as int]@,
            decreases d.len() - j,
        {
            if d[j] == v[i] {
                seen = true;
            }
            j = j + 1;
        }
        let ghost prev = strs_view(v@.take(i as int));
        proof {
            assert(strs_view(v@.take(i + 1)) =~= prev.push(v@[i as int]@));
        }
        if !seen {
            let ghost before = strs_view(d@);
            d.push(v[i].clone());
            proof {
                assert(strs_view(d@) =~= before.push(v@[i as int]@));
                assert(!before.contains(v@[i as int]@)) by {
                    if before.contains(v@[i as int]@) {
                        let k = choose|k: int| 0 <= k < before.len() && before[k] == v@[i as int]@;
                        assert(d@[k]@ == v@[i as int]@);
                    }
                }
                assert forall|x: Seq<char>| strs_view(d@).contains(x) <==> strs_view(v@.take(i + 1)).contains(x) by {
                    lemma_push_contains(before, v@[i as int]@, x);
                    lemma_push_contains(prev, v@[i as int]@, x);
                }
            }
        } else {
            proof {
                let k = choose|k: int| 0 <= k < j && d@[k]@ == v@[i as int]@;
                assert(strs_view(d@)[k] == v@[i as int]@);
                assert forall|x: Seq<char>| strs_view(d@).contains(x) <==> strs_view(v@.take(i + 1)).contains(x) by {
                    lemma_push_contains(prev, v@[i as int]@, x);
                }
            }
        }
        i = i + 1;
    }
    proof {
        assert(v@.take(i as int) =~= v@);
    }
    let ghost dv = strs_view(d@);
    let r = sort_strings(d);
    proof {
        broadcast use vstd::seq_lib::group_to_multiset_ensures;
        dv.lemma_multiset_has_no_duplicates();
        strs_view(r@).lemma_multiset_has_no_duplicates_conv();
        assert forall|x: Seq<char>| strs_view(r@).contains(x) <==> strs_view(v@).contains(x) by {
            assert(strs_view(r@).contains(x) <==> strs_view(r@).to_multiset().count(x) > 0);
            assert(dv.contains(x) <==> dv.to_multiset().count(x) > 0);
        }
    }
    r
}

} // verus!
