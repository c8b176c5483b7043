//! Ordering playlist entries by their position, keeping the table order of
//! entries at the same position.

use vstd::prelude::*;

verus! {

/// Entries in ascending order of their position (the first component).
pub open spec fn index_sorted(s: Seq<(u32, u32)>) -> bool {
    forall|i: int, j: int| 0 <= i <= j < s.len() ==> #[trigger] s[i].0 <= #[trigger] s[j].0
}

/// Selects the entries at position `k`.
pub open spec fn at_index(k: u32) -> spec_fn((u32, u32)) -> bool {
    |e: (u32, u32)| e.0 == k
}

/// Where an entry at position `k` goes in `s`: after every entry of `s` whose
/// position is at most `k`, when `s` is sorted.
pub open spec fn insertion_point(s: Seq<(u32, u32)>, k: u32) -> int
    decreases s.len(),
{
    if s.len() > 0 && s.last().0 > k {
        insertion_point(s.drop_last(), k)
    } else {
        s.len() as int
    }
}

/// `s` with `x` put at its insertion point.
pub open spec fn insert_by_index(s: Seq<(u32, u32)>, x: (u32, u32)) -> Seq<(u32, u32)> {
    let p = insertion_point(s, x.0);
    s.take(p) + seq![x] + s.skip(p)
}

/// The entries of `s` ordered by position, entries at the same position in
/// the order in which they come in `s`.
pub open spec fn sort_by_index(s: Seq<(u32, u32)>) -> Seq<(u32, u32)>
    decreases s.len(),
{
    if s.len() == 0 {
        s
    } else {
        insert_by_index(sort_by_index(s.drop_last()), s.last())
    }
}

proof fn lemma_insertion_point(s: Seq<(u32, u32)>, k: u32)
    ensures
        0 <= insertion_point(s, k) <= s.len(),
        forall|i: int| insertion_point(s, k) <= i < s.len() ==> #[trigger] s[i].0 > k,
        insertion_point(s, k) > 0 ==> s[insertion_point(s, k) - 1].0 <= k,
    decreases s.len(),
{
    if s.len() > 0 && s.last().0 > k {
        lemma_insertion_point(s.drop_last(), k);
        assert forall|i: int| insertion_point(s, k) <= i < s.len() implies #[trigger] s[i].0 > k by {
            if i < s.len() - 1 {
                assert(s.drop_last()[i] == s[i]);
            }
        }
    }
}

proof fn lemma_insert_by_index(s: Seq<(u32, u32)>, x: (u32, u32))
    requires
        index_sorted(s),
    ensures
        index_sorted(insert_by_index(s, x)),
        insert_by_index(s, x).len() == s.len() + 1,
        forall|k: u32|
            #[trigger] insert_by_index(s, x).filter(at_index(k)) == if k == x.0 {
                s.filter(at_index(k)).push(x)
            } else {
                s.filter(at_index(k))
            },
{
    let p = insertion_point(s, x.0);
    lemma_insertion_point(s, x.0);
    let a = s.take(p);
    let b = s.skip(p);
    let one = seq![x];
    let r = insert_by_index(s, x);
    assert(s =~= a + b);
    assert(r =~= a + one + b);
    assert forall|i: int| 0 <= i < a.len() implies #[trigger] a[i].0 <= x.0 by {
        assert(s[i].0 <= s[p - 1].0);
    }
    assert forall|i: int| 0 <= i < b.len() implies #[trigger] b[i].0 > x.0 by {
        assert(b[i] == s[p + i]);
    }
    assert forall|i: int, j: int| 0 <= i <= j < r.len() implies #[trigger] r[i].0 <= #[trigger] r[j].0 by {
        if i < p && j < p {
            assert(r[i] == s[i] && r[j] == s[j]);
        } else if i < p && j == p {
            assert(r[i] == a[i]);
        } else if i < p {
            assert(r[i] == a[i] && r[j] == b[j - p - 1]);
        } else if i == p && j > p {
            assert(r[j] == b[j - p - 1]);
        } else if i > p {
            assert(r[i] == s[i - 1] && r[j] == s[j - 1]);
        }
    }
    assert forall|k: u32| #[trigger] r.filter(at_index(k)) == if k == x.0 {
        s.filter(at_index(k)).push(x)
    } else {
        s.filter(at_index(k))
    } by {
        let f = at_index(k);
        Seq::filter_distributes_over_add(a + one, b, f);
        Seq::filter_distributes_over_add(a, one, f);
        Seq::filter_distributes_over_add(a, b, f);
        Seq::<(u32, u32)>::empty().lemma_filter_push(x, f);
        assert(one =~= Seq::<(u32, u32)>::empty().push(x));
        assert(Seq::<(u32, u32)>::empty().filter(f) =~= Seq::<(u32, u32)>::empty()) by {
            reveal(Seq::filter);
        }
        if k == x.0 {
            assert(b.all(|e: (u32, u32)| !f(e)));
            b.lemma_all_neg_filter_empty(f);
            assert(b.filter(f) =~= Seq::<(u32, u32)>::empty());
            assert(r.filter(f) =~= s.filter(f).push(x));
        } else {
            assert(one.filter(f) =~= Seq::<(u32, u32)>::empty());
            assert(r.filter(f) =~= s.filter(f));
        }
    }
}

/// Ordering by position yields a sequence sorted by position that holds, at
/// each position, exactly the entries of the input at that position, in
/// their input order: a stable sort.
pub proof fn lemma_sort_by_index(s: Seq<(u32, u32)>)
    ensures
        index_sorted(sort_by_index(s)),
        sort_by_index(s).len() == s.len(),
        forall|k: u32| #[trigger] sort_by_index(s).filter(at_index(k)) == s.filter(at_index(k)),
    decreases s.len(),
{
    if s.len() > 0 {
        let rest = s.drop_last();
        lemma_sort_by_index(rest);
        lemma_insert_by_index(sort_by_index(rest), s.last());
        assert(s =~= rest.push(s.last()));
        assert forall|k: u32| #[trigger] sort_by_index(s).filter(at_index(k)) == s.filter(
            at_index(k),
        ) by {
            rest.lemma_filter_push(s.last(), at_index(k));
            assert(sort_by_index(rest).filter(at_index(k)) == rest.filter(at_index(k)));
        }
    }
}

/// Sorts playlist entries `(entry_index, track_id)` by their entry index,
/// keeping the input order of entries with the same index.
pub fn sort_entries_by_index(entries: &Vec<(u32, u32)>) -> (sorted: Vec<(u32, u32)>)
    ensures
        sorted@ == sort_by_index(entries@),
        index_sorted(sorted@),
        forall|k: u32| #[trigger] sorted@.filter(at_index(k)) == entries@.filter(at_index(k)),
{
    let mut sorted: Vec<(u32, u32)> = Vec::new();
    for i in 0..entries.len()
        invariant
            sorted@ == sort_by_index(entries@.take(i as int)),
            index_sorted(sorted@),
    {
        let x = entries[i];
        let mut p = sorted.len();
        assert(sorted@.take(sorted@.len() as int) =~= sorted@);
        while p > 0 && sorted[p - 1].0 > x.0
            invariant
                p <= sorted@.len(),
                insertion_point(sorted@.take(p as int), x.0) == insertion_point(sorted@, x.0),
            decreases p,
        {
            assert(sorted@.take(p as int).drop_last() =~= sorted@.take(p - 1));
            p = p - 1;
        }
        proof {
            lemma_insert_by_index(sorted@, x);
            assert(entries@.take(i + 1).drop_last() =~= entries@.take(i as int));
        }
        let ghost before = sorted@;
        sorted.insert(p, x);
        assert(sorted@ =~= insert_by_index(before, x));
    }
    proof {
        assert(entries@.take(entries@.len() as int) =~= entries@);
        lemma_sort_by_index(entries@);
    }
    sorted
}

} // verus!
