//! Lists of named entries with distinct names, read as maps from name to value.

use vstd::prelude::*;

verus! {

/// The names of a list of named entries.
pub open spec fn entry_names<H>(s: Seq<(String, H)>) -> Seq<Seq<char>> {
    s.map_values(|e: (String, H)| e.0@)
}

/// A list of named entries read as a map from name to value.
pub open spec fn entries_map<H>(s: Seq<(String, H)>) -> Map<Seq<char>, H> {
    Map::new(
        |k: Seq<char>| entry_names(s).contains(k),
        |k: Seq<char>| s[entry_names(s).index_of(k)].1,
    )
}

/// With distinct names, the entry at `i` is what the map holds for its name.
pub proof fn lemma_entries_map_at<H>(s: Seq<(String, H)>, i: int)
    requires
        entry_names(s).no_duplicates(),
        0 <= i < s.len(),
    ensures
        entries_map(s).contains_key(s[i].0@),
        entries_map(s)[s[i].0@] == s[i].1,
{
    let names = entry_names(s);
    assert(names[i] == s[i].0@);
    assert(names.contains(s[i].0@));
    let j = names.index_of(s[i].0@);
    assert(names[j] == names[i]);
}

/// A name is in the map exactly when some entry carries it.
pub proof fn lemma_entries_map_dom<H>(s: Seq<(String, H)>, k: Seq<char>)
    ensures
        entries_map(s).contains_key(k) <==> exists|i: int| 0 <= i < s.len() && s[i].0@ == k,
{
    let names = entry_names(s);
    if entries_map(s).contains_key(k) {
        let i = names.index_of(k);
        assert(s[i].0@ == k);
    }
    if exists|i: int| 0 <= i < s.len() && s[i].0@ == k {
        let i = choose|i: int| 0 <= i < s.len() && s[i].0@ == k;
        assert(names[i] == k);
    }
}

/// Appending an entry with a new name inserts it into the map.
pub proof fn lemma_entries_push<H>(s: Seq<(String, H)>, e: (String, H))
    requires
        entry_names(s).no_duplicates(),
        !entry_names(s).contains(e.0@),
    ensures
        entry_names(s.push(e)).no_duplicates(),
        entries_map(s.push(e)) == entries_map(s).insert(e.0@, e.1),
{
    let t = s.push(e);
    assert(entry_names(t) =~= entry_names(s).push(e.0@));
    assert forall|k: Seq<char>| #[trigger]
        entries_map(t).contains_key(k) == entries_map(s).insert(e.0@, e.1).contains_key(k) by {
        lemma_entries_map_dom(t, k);
        lemma_entries_map_dom(s, k);
        if k == e.0@ {
            assert(t[s.len() as int].0@ == k);
        }
        if exists|i: int| 0 <= i < s.len() && s[i].0@ == k {
            let i = choose|i: int| 0 <= i < s.len() && s[i].0@ == k;
            assert(t[i].0@ == k);
        }
        if exists|i: int| 0 <= i < t.len() && t[i].0@ == k {
            let i = choose|i: int| 0 <= i < t.len() && t[i].0@ == k;
            if i < s.len() {
                assert(s[i].0@ == k);
            }
        }
    }
    assert forall|k: Seq<char>| #[trigger] entries_map(t).contains_key(k) implies entries_map(t)[k]
        == entries_map(s).insert(e.0@, e.1)[k] by {
        lemma_entries_map_dom(t, k);
        let i = choose|i: int| 0 <= i < t.len() && t[i].0@ == k;
        lemma_entries_map_at(t, i);
        if i < s.len() {
            assert(t[i] == s[i]);
            assert(entry_names(s)[i] == k);
            lemma_entries_map_at(s, i);
        }
    }
    assert(entries_map(t) =~= entries_map(s).insert(e.0@, e.1));
}

/// Removing the entry at `i` removes its name from the map.
pub proof fn lemma_entries_remove<H>(s: Seq<(String, H)>, i: int)
    requires
        entry_names(s).no_duplicates(),
        0 <= i < s.len(),
    ensures
        entry_names(s.remove(i)).no_duplicates(),
        entries_map(s.remove(i)) == entries_map(s).remove(s[i].0@),
{
    let t = s.remove(i);
    let names = entry_names(s);
    assert(entry_names(t) =~= names.remove(i));
    assert forall|a: int, b: int| 0 <= a < t.len() && 0 <= b < t.len() && a != b implies entry_names(
        t,
    )[a] != entry_names(t)[b] by {
        let a2 = if a < i { a } else { a + 1 };
        let b2 = if b < i { b } else { b + 1 };
        assert(entry_names(t)[a] == names[a2]);
        assert(entry_names(t)[b] == names[b2]);
    }
    assert forall|k: Seq<char>| #[trigger]
        entries_map(t).contains_key(k) == entries_map(s).remove(s[i].0@).contains_key(k) by {
        lemma_entries_map_dom(t, k);
        lemma_entries_map_dom(s, k);
        if exists|j: int| 0 <= j < t.len() && t[j].0@ == k {
            let j = choose|j: int| 0 <= j < t.len() && t[j].0@ == k;
            let j2 = if j < i { j } else { j + 1 };
            assert(t[j] == s[j2]);
            assert(names[j2] == k);
            assert(names[i] == s[i].0@);
        }
        if exists|j: int| 0 <= j < s.len() && s[j].0@ == k && k != s[i].0@ {
            let j = choose|j: int| 0 <= j < s.len() && s[j].0@ == k && k != s[i].0@;
            assert(j != i);
            let j2 = if j < i { j } else { j - 1 };
            assert(t[j2] == s[j]);
        }
    }
    assert forall|k: Seq<char>| #[trigger] entries_map(t).contains_key(k) implies entries_map(t)[k]
        == entries_map(s)[k] by {
        lemma_entries_map_dom(t, k);
        let j = choose|j: int| 0 <= j < t.len() && t[j].0@ == k;
        lemma_entries_map_at(t, j);
        let j2 = if j < i { j } else { j + 1 };
        assert(t[j] == s[j2]);
        lemma_entries_map_at(s, j2);
    }
    assert(entries_map(t) =~= entries_map(s).remove(s[i].0@));
}

/// Names in the map are exactly the names listed.
pub proof fn lemma_entries_names_contains<H>(s: Seq<(String, H)>, k: Seq<char>)
    ensures
        entries_map(s).contains_key(k) == entry_names(s).contains(k),
{
}

/// `kept` holds, under distinct names, exactly the entries of `s[lo..hi]`
/// that satisfy `keep`.
pub open spec fn filtered_between<H>(
    s: Seq<(String, H)>,
    kept: Seq<(String, H)>,
    lo: int,
    hi: int,
    keep: spec_fn(Seq<char>, H) -> bool,
) -> bool {
    &&& entry_names(kept).no_duplicates()
    &&& forall|k: Seq<char>| #[trigger]
        entries_map(kept).contains_key(k) <==> exists|j: int|
            lo <= j < hi && s[j].0@ == k && keep(k, s[j].1)
    &&& forall|k: Seq<char>| #[trigger]
        entries_map(kept).contains_key(k) ==> entries_map(kept)[k] == entries_map(s)[k]
}

/// The entries of the map that satisfy `keep`.
pub open spec fn restrict_by<H>(m: Map<Seq<char>, H>, keep: spec_fn(Seq<char>, H) -> bool) -> Map<Seq<char>, H> {
    Map::new(|k: Seq<char>| m.contains_key(k) && keep(k, m[k]), |k: Seq<char>| m[k])
}

/// Nothing processed yet, nothing kept.
pub proof fn lemma_filter_start<H>(s: Seq<(String, H)>, kept: Seq<(String, H)>, hi: int, keep: spec_fn(Seq<char>, H) -> bool)
    requires
        kept.len() == 0,
    ensures
        filtered_between(s, kept, hi, hi, keep),
{
    assert(entry_names(kept) =~= Seq::<Seq<char>>::empty());
    assert forall|k: Seq<char>| #[trigger] entries_map(kept).contains_key(k) implies false by {
        lemma_entries_names_contains(kept, k);
    }
}

/// Processing the entry just below `lo`: it is kept when it satisfies `keep`.
pub proof fn lemma_filter_step<H>(
    s: Seq<(String, H)>,
    kept: Seq<(String, H)>,
    lo: int,
    hi: int,
    keep: spec_fn(Seq<char>, H) -> bool,
)
    requires
        entry_names(s).no_duplicates(),
        0 < lo <= hi <= s.len(),
        filtered_between(s, kept, lo, hi, keep),
    ensures
        keep(s[lo - 1].0@, s[lo - 1].1) ==> filtered_between(s, kept.push(s[lo - 1]), lo - 1, hi, keep),
        !keep(s[lo - 1].0@, s[lo - 1].1) ==> filtered_between(s, kept, lo - 1, hi, keep),
{
    let e = s[lo - 1];
    let names = entry_names(s);
    lemma_entries_map_at(s, lo - 1);
    assert(names[lo - 1] == e.0@);
    // No processed entry carries the name of `e`.
    assert forall|j: int| lo <= j < hi implies s[j].0@ != e.0@ by {
        assert(names[j] == s[j].0@);
    }
    if keep(e.0@, e.1) {
        lemma_entries_names_contains(kept, e.0@);
        lemma_entries_push(kept, e);
        let t = kept.push(e);
        assert forall|k: Seq<char>| #[trigger]
            entries_map(t).contains_key(k) <==> exists|j: int|
                lo - 1 <= j < hi && s[j].0@ == k && keep(k, s[j].1) by {
            if k == e.0@ {
                assert(lo - 1 <= lo - 1 < hi && s[lo - 1].0@ == k && keep(k, s[lo - 1].1));
            } else if exists|j: int| lo - 1 <= j < hi && s[j].0@ == k && keep(k, s[j].1) {
                let j = choose|j: int| lo - 1 <= j < hi && s[j].0@ == k && keep(k, s[j].1);
                assert(j != lo - 1);
                assert(lo <= j < hi && s[j].0@ == k && keep(k, s[j].1));
            }
        }
    } else {
        assert forall|k: Seq<char>| #[trigger]
            entries_map(kept).contains_key(k) <==> exists|j: int|
                lo - 1 <= j < hi && s[j].0@ == k && keep(k, s[j].1) by {
            if exists|j: int| lo - 1 <= j < hi && s[j].0@ == k && keep(k, s[j].1) {
                let j = choose|j: int| lo - 1 <= j < hi && s[j].0@ == k && keep(k, s[j].1);
                if j == lo - 1 {
                    assert(false);
                }
                assert(lo <= j < hi && s[j].0@ == k && keep(k, s[j].1));
            }
        }
    }
}

/// Having processed every entry, `kept` is the map restricted to `keep`.
pub proof fn lemma_filter_done<H>(s: Seq<(String, H)>, kept: Seq<(String, H)>, keep: spec_fn(Seq<char>, H) -> bool)
    requires
        entry_names(s).no_duplicates(),
        filtered_between(s, kept, 0, s.len() as int, keep),
    ensures
        entries_map(kept) == restrict_by(entries_map(s), keep),
{
    let m = entries_map(s);
    assert forall|k: Seq<char>| #[trigger] entries_map(kept).contains_key(k) == restrict_by(m, keep).contains_key(k) by {
        lemma_entries_map_dom(s, k);
        if entries_map(kept).contains_key(k) {
            let j = choose|j: int| 0 <= j < s.len() && s[j].0@ == k && keep(k, s[j].1);
            lemma_entries_map_at(s, j);
        }
        if restrict_by(m, keep).contains_key(k) {
            let j = choose|j: int| 0 <= j < s.len() && s[j].0@ == k;
            lemma_entries_map_at(s, j);
            assert(0 <= j < s.len() && s[j].0@ == k && keep(k, s[j].1));
        }
    }
    assert(entries_map(kept) =~= restrict_by(m, keep));
}

} // verus!
