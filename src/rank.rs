use vstd::prelude::*;

verus! {

broadcast use vstd::seq_lib::group_filter_ensures;

pub open spec fn has_tf(tf: i32) -> spec_fn((i32, i32)) -> bool {
    |r: (i32, i32)| r.0 == tf
}

/// The records whose term frequency is `tf`, in their order.
pub open spec fn with_tf(s: Seq<(i32, i32)>, tf: i32) -> Seq<(i32, i32)> {
    s.filter(has_tf(tf))
}

/// Ordered by descending term frequency.
pub open spec fn sorted_desc(s: Seq<(i32, i32)>) -> bool {
    forall|i: int, j: int| 0 <= i < j < s.len() ==> s[i].0 >= s[j].0
}

/// `out` is the stable descending ranking of `inp`: ordered by descending term
/// frequency, and for each term frequency the same records in the same order.
/// Exactly one sequence is a ranking of a given input.
pub open spec fn is_ranking_of(out: Seq<(i32, i32)>, inp: Seq<(i32, i32)>) -> bool {
    &&& out.len() == inp.len()
    &&& sorted_desc(out)
    &&& forall|tf: i32| #[trigger] with_tf(out, tf) == with_tf(inp, tf)
}

/// Two sequences ordered by descending term frequency that hold, for every
/// term frequency, the same records in the same order are equal.
proof fn lemma_same_groups_equal(a: Seq<(i32, i32)>, b: Seq<(i32, i32)>)
    requires
        a.len() == b.len(),
        sorted_desc(a),
        sorted_desc(b),
        forall|tf: i32| #[trigger] with_tf(a, tf) == with_tf(b, tf),
    ensures
        a == b,
    decreases a.len(),
{
    if a.len() == 0 {
        assert(a =~= b);
    } else {
        let x = a.last();
        let y = b.last();
        let fa = a.drop_last();
        let fb = b.drop_last();
        assert(fa.push(x) =~= a);
        assert(fb.push(y) =~= b);
        if x.0 != y.0 {
            // The smaller of the two last frequencies has a record in both.
            let (s, t, m) = if x.0 < y.0 {
                (a, b, x.0)
            } else {
                (b, a, y.0)
            };
            assert(with_tf(s, m).contains(s.last()));
            assert(with_tf(t, m).len() > 0);
            let w = with_tf(t, m)[0];
            assert(with_tf(t, m).contains(w));
            t.lemma_filter_contains_rev(has_tf(m), w);
            assert(t.contains(w));
            let j = choose|j: int| 0 <= j < t.len() && t[j] == w;
            assert(t[j].0 >= t.last().0);
            assert(false);
        }
        assert forall|tf: i32| #[trigger] with_tf(fa, tf) == with_tf(fb, tf) by {
            fa.lemma_filter_push(x, has_tf(tf));
            fb.lemma_filter_push(y, has_tf(tf));
            assert(with_tf(a, tf) == with_tf(b, tf));
            if x.0 == tf {
                assert(with_tf(fa, tf) =~= with_tf(a, tf).drop_last());
                assert(with_tf(fb, tf) =~= with_tf(b, tf).drop_last());
            }
        }
        fa.lemma_filter_push(x, has_tf(x.0));
        fb.lemma_filter_push(y, has_tf(x.0));
        assert(with_tf(a, x.0).last() == x);
        assert(with_tf(b, x.0).last() == y);
        lemma_same_groups_equal(fa, fb);
    }
}

/// A ranking is unique: two rankings of one input are the same sequence.
pub proof fn lemma_ranking_unique(a: Seq<(i32, i32)>, b: Seq<(i32, i32)>, inp: Seq<(i32, i32)>)
    requires
        is_ranking_of(a, inp),
        is_ranking_of(b, inp),
    ensures
        a == b,
{
    assert forall|tf: i32| #[trigger] with_tf(a, tf) == with_tf(b, tf) by {
        assert(with_tf(a, tf) == with_tf(inp, tf));
    }
    lemma_same_groups_equal(a, b);
}

/// The first position in a descending sequence whose term frequency is below `tf`.
fn insertion_point(sorted: &Vec<(i32, i32)>, tf: i32) -> (p: usize)
    requires
        sorted_desc(sorted@),
    ensures
        p <= sorted@.len(),
        forall|k: int| 0 <= k < p ==> sorted@[k].0 >= tf,
        forall|k: int| p <= k < sorted@.len() ==> sorted@[k].0 < tf,
{
    let mut p: usize = 0;
    while p < sorted.len() && sorted[p].0 >= tf
        invariant
            p <= sorted@.len(),
            forall|k: int| 0 <= k < p ==> sorted@[k].0 >= tf,
        decreases sorted@.len() - p,
    {
        p = p + 1;
    }
    p
}

/// Inserting `x` after every record of term frequency at least its own keeps
/// the per-frequency subsequences in order, `x` last among its equals.
proof fn lemma_insert_filter(s: Seq<(i32, i32)>, p: int, x: (i32, i32), tf: i32)
    requires
        0 <= p <= s.len(),
        forall|k: int| p <= k < s.len() ==> s[k].0 < x.0,
    ensures
        with_tf(s.insert(p, x), tf) == if x.0 == tf {
            with_tf(s, tf).push(x)
        } else {
            with_tf(s, tf)
        },
{
    let pred = has_tf(tf);
    let a = s.subrange(0, p);
    let b = s.subrange(p, s.len() as int);
    assert(s.insert(p, x) =~= a.push(x) + b);
    assert(s =~= a + b);
    Seq::filter_distributes_over_add(a.push(x), b, pred);
    Seq::filter_distributes_over_add(a, b, pred);
    a.lemma_filter_push(x, pred);
    if x.0 == tf {
        assert forall|k: int| 0 <= k < b.len() implies !pred(b[k]) by {
            assert(b[k] == s[p + k]);
        }
        b.lemma_all_neg_filter_empty(pred);
        assert(b.filter(pred) =~= Seq::<(i32, i32)>::empty());
    }
}

/// Ranks records by descending term frequency. The sort is stable: records of
/// equal term frequency keep their input order. Nothing is dropped or added.
pub fn rank_results(records: &Vec<(i32, i32)>) -> (r: Vec<(i32, i32)>)
    ensures
        is_ranking_of(r@, records@),
        r@.len() == records@.len(),
{
    let mut out: Vec<(i32, i32)> = Vec::new();
    let mut i: usize = 0;
    assert(out@ =~= records@.take(0));
    while i < records.len()
        invariant
            i <= records@.len(),
            is_ranking_of(out@, records@.take(i as int)),
        decreases records@.len() - i,
    {
        let x = records[i];
        let p = insertion_point(&out, x.0);
        let ghost before = out@;
        out.insert(p, x);
        proof {
            let inp = records@.take(i + 1);
            assert(inp =~= records@.take(i as int).push(x));
            assert forall|tf: i32| #[trigger] with_tf(out@, tf) == with_tf(inp, tf) by {
                lemma_insert_filter(before, p as int, x, tf);
                records@.take(i as int).lemma_filter_push(x, has_tf(tf));
            }
            assert forall|a: int, b: int| 0 <= a < b < out@.len() implies out@[a].0
                >= out@[b].0 by {
                if a < p && b > p {
                    assert(out@[a] == before[a]);
                    assert(out@[b] == before[b - 1]);
                } else if a < p && b == p {
                    assert(out@[a] == before[a]);
                } else if a == p {
                    assert(out@[b] == before[b - 1]);
                } else if b < p {
                    assert(out@[a] == before[a]);
                    assert(out@[b] == before[b]);
                } else {
                    assert(out@[a] == before[a - 1]);
                    assert(out@[b] == before[b - 1]);
                }
            }
        }
        i = i + 1;
    }
    proof {
        assert(records@.take(i as int) =~= records@);
    }
    out
}

} // verus!
