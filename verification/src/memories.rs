//! The memories a bot keeps about a client: of the stored memories, newest
//! first, each key keeps the value of its newest memory.

use vstd::prelude::*;

verus! {

/// The entries as (key text, value) pairs.
pub open spec fn entries_view<V>(s: Seq<(String, V)>) -> Seq<(Seq<char>, V)> {
    s.map_values(|e: (String, V)| (e.0@, e.1))
}

/// Some entry of `s` has key `k`.
pub open spec fn has_key<V>(s: Seq<(Seq<char>, V)>, k: Seq<char>) -> bool {
    exists|i: int| 0 <= i < s.len() && #[trigger] s[i].0 == k
}

/// The entries of `s` whose key no earlier entry has, in order.
pub open spec fn first_per_key<V>(s: Seq<(Seq<char>, V)>) -> Seq<(Seq<char>, V)>
    decreases s.len(),
{
    if s.len() == 0 {
        Seq::empty()
    } else {
        let r = first_per_key(s.drop_last());
        if has_key(s.drop_last(), s.last().0) {
            r
        } else {
            r.push(s.last())
        }
    }
}

/// A key occurs among the kept entries exactly when it occurs in the input.
pub proof fn lemma_first_per_key_keys<V>(s: Seq<(Seq<char>, V)>, k: Seq<char>)
    ensures
        has_key(first_per_key(s), k) <==> has_key(s, k),
    decreases s.len(),
{
    if s.len() > 0 {
        let p = s.drop_last();
        lemma_first_per_key_keys(p, k);
        lemma_first_per_key_keys(p, s.last().0);
        let r = first_per_key(p);
        if has_key(s, k) {
            let i = choose|i: int| 0 <= i < s.len() && #[trigger] s[i].0 == k;
            if i < p.len() {
                assert(p[i].0 == k);
                if !has_key(p, s.last().0) {
                    let j = choose|j: int| 0 <= j < r.len() && #[trigger] r[j].0 == k;
                    assert(r.push(s.last())[j].0 == k);
                }
            } else {
                if has_key(p, s.last().0) {
                } else {
                    assert(r.push(s.last())[r.len() as int].0 == k);
                }
            }
        }
        if has_key(first_per_key(s), k) {
            let fs = first_per_key(s);
            let j = choose|j: int| 0 <= j < fs.len() && #[trigger] fs[j].0 == k;
            if !has_key(p, s.last().0) && j == r.len() {
                assert(s[s.len() - 1].0 == k);
            } else {
                assert(r[j].0 == k);
            }
        }
    }
}

/// The kept entries have pairwise different keys.
pub proof fn lemma_first_per_key_distinct<V>(s: Seq<(Seq<char>, V)>)
    ensures
        forall|i: int, j: int|
            0 <= i < j < first_per_key(s).len() ==> first_per_key(s)[i].0 != first_per_key(
                s,
            )[j].0,
    decreases s.len(),
{
    if s.len() > 0 {
        let p = s.drop_last();
        lemma_first_per_key_distinct(p);
        lemma_first_per_key_keys(p, s.last().0);
        let r = first_per_key(p);
        if !has_key(p, s.last().0) {
            assert forall|i: int, j: int|
                0 <= i < j < first_per_key(s).len() implies first_per_key(s)[i].0
                != first_per_key(s)[j].0 by {
                if j == r.len() {
                    if r[i].0 == s.last().0 {
                        assert(has_key(r, s.last().0));
                    }
                }
            }
        }
    }
}

/// Each kept entry is the earliest (newest) entry of the input with its key.
pub proof fn lemma_first_per_key_earliest<V>(s: Seq<(Seq<char>, V)>)
    ensures
        forall|j: int|
            0 <= j < first_per_key(s).len() ==> exists|i: int|
                0 <= i < s.len() && s[i] == #[trigger] first_per_key(s)[j] && forall|m: int|
                    0 <= m < i ==> s[m].0 != first_per_key(s)[j].0,
    decreases s.len(),
{
    if s.len() > 0 {
        let p = s.drop_last();
        lemma_first_per_key_earliest(p);
        let r = first_per_key(p);
        let fs = first_per_key(s);
        assert forall|j: int| 0 <= j < fs.len() implies exists|i: int|
            0 <= i < s.len() && s[i] == #[trigger] fs[j] && forall|m: int|
                0 <= m < i ==> s[m].0 != fs[j].0 by {
            if j < r.len() {
                assert(fs[j] == r[j]);
                let i = choose|i: int|
                    0 <= i < p.len() && p[i] == #[trigger] r[j] && forall|m: int|
                        0 <= m < i ==> p[m].0 != r[j].0;
                assert(s[i] == p[i]);
                assert forall|m: int| 0 <= m < i implies s[m].0 != fs[j].0 by {
                    assert(s[m] == p[m]);
                }
            } else {
                let i = s.len() - 1;
                assert(fs[j] == s[i]);
                assert forall|m: int| 0 <= m < i implies s[m].0 != fs[j].0 by {
                    assert(s[m] == p[m]);
                    if s[m].0 == fs[j].0 {
                        assert(has_key(p, s.last().0));
                    }
                }
            }
        }
    }
}

fn contains_key<V>(out: &Vec<(String, V)>, k: &String) -> (b: bool)
    ensures
        b == has_key(entries_view(out@), k@),
{
    let n = out.len();
    let mut j: usize = 0;
    while j < n
        invariant
            n == out@.len(),
            j <= n,
            forall|m: int| 0 <= m < j ==> out@[m].0@ != k@,
        decreases n - j,
    {
        if out[j].0 == *k {
            proof {
                assert(entries_view(out@)[j as int].0 == k@);
            }
            return true;
        }
        j = j + 1;
    }
    proof {
        if has_key(entries_view(out@), k@) {
            let m = choose|m: int|
                0 <= m < entries_view(out@).len() && #[trigger] entries_view(out@)[m].0 == k@;
            assert(out@[m].0@ == k@);
        }
    }
    false
}

/// Keeps, of the memories listed newest first, the newest one of each key:
/// the entries whose key no earlier entry has, in their order.
pub fn latest_per_key<V>(entries: Vec<(String, V)>) -> (r: Vec<(String, V)>)
    ensures
        entries_view(r@) == first_per_key(entries_view(entries@)),
{
    let ghost all = entries_view(entries@);
    let mut rest = entries;
    let mut out: Vec<(String, V)> = Vec::new();
    let ghost mut taken: int = 0;
    proof {
        assert(all.take(0) =~= Seq::<(Seq<char>, V)>::empty());
        assert(entries_view(out@) =~= Seq::<(Seq<char>, V)>::empty());
        assert(entries_view(rest@) =~= all.skip(0));
    }
    while rest.len() > 0
        invariant
            0 <= taken <= all.len(),
            entries_view(rest@) == all.skip(taken),
            entries_view(out@) == first_per_key(all.take(taken)),
        decreases rest.len(),
    {
        let ghost before = rest@;
        let e = rest.remove(0);
        proof {
            assert(entries_view(before).len() == before.len());
            assert(taken < all.len());
            assert(e == before[0]);
            assert(entries_view(before)[0] == (before[0].0@, before[0].1));
            assert(all.skip(taken)[0] == all[taken]);
            assert((e.0@, e.1) == all[taken]);
            assert(rest@ =~= before.subrange(1, before.len() as int));
            assert forall|i: int| 0 <= i < rest@.len() implies entries_view(rest@)[i] == all.skip(
                taken + 1,
            )[i] by {
                assert(rest@[i] == before[i + 1]);
                assert(entries_view(before)[i + 1] == all.skip(taken)[i + 1]);
            }
            assert(entries_view(rest@) =~= all.skip(taken + 1));
            assert(all.take(taken + 1).drop_last() =~= all.take(taken));
            assert(all.take(taken + 1).last() == all[taken]);
            lemma_first_per_key_keys(all.take(taken), e.0@);
        }
        let dup = contains_key(&out, &e.0);
        if !dup {
            let ghost before_out = out@;
            out.push(e);
            proof {
                assert(entries_view(out@) =~= entries_view(before_out).push(all[taken]));
            }
        }
        proof {
            taken = taken + 1;
        }
    }
    proof {
        assert(all.take(taken) =~= all);
    }
    out
}

} // verus!
