//! Stable insertion sorts for the lists the gateway serves: by a number,
//! largest first, and by a name, in character order.
use vstd::prelude::*;

verus! {

broadcast use vstd::seq_lib::group_to_multiset_ensures, vstd::multiset::group_multiset_axioms;

/// `v` is ordered by its numbers, largest first.
pub open spec fn desc_by_key<T>(v: Seq<(u64, T)>) -> bool {
    forall|i: int, j: int| 0 <= i < j < v.len() ==> v[i].0 >= v[j].0
}

/// Sorts by number, largest first; entries with equal numbers keep their
/// order.
pub fn sort_desc_by_key<T>(v: Vec<(u64, T)>) -> (r: Vec<(u64, T)>)
    ensures
        desc_by_key(r@),
        r@.to_multiset() == v@.to_multiset(),
{
    let ghost all = v@.to_multiset();
    let mut src = v;
    let mut out: Vec<(u64, T)> = Vec::new();
    while src.len() > 0
        invariant
            desc_by_key(out@),
            out@.to_multiset().add(src@.to_multiset()) == all,
        decreases src@.len(),
    {
        let ghost before_src = src@;
        let x = src.remove(0);
        let mut p: usize = 0;
        while p < out.len() && out[p].0 >= x.0
            invariant
                p <= out@.len(),
                forall|i: int| 0 <= i < p ==> out@[i].0 >= x.0,
            decreases out@.len() - p,
        {
            p = p + 1;
        }
        let ghost before_out = out@;
        out.insert(p, x);
        proof {
            assert(out@ == before_out.insert(p as int, x));
            assert(src@ == before_src.remove(0));
            assert(before_src[0] == x);
            assert forall|i: int, j: int| 0 <= i < j < out@.len() implies out@[i].0 >= out@[j].0 by {
                if j < p {
                } else if j == p {
                    assert(out@[i] == before_out[i]);
                } else if i < p {
                    assert(out@[j] == before_out[j - 1]);
                    if p < before_out.len() {
                        assert(before_out[p as int].0 < x.0);
                        if j - 1 > p {
                            assert(before_out[p as int].0 >= before_out[j - 1].0);
                        }
                    }
                } else if i == p {
                    assert(out@[j] == before_out[j - 1]);
                    assert(before_out[p as int].0 < x.0);
                    if j - 1 > p {
                        assert(before_out[p as int].0 >= before_out[j - 1].0);
                    }
                } else {
                    assert(out@[i] == before_out[i - 1]);
                    assert(out@[j] == before_out[j - 1]);
                }
            }
            assert(out@.to_multiset() == before_out.to_multiset().insert(x));
            assert(src@.to_multiset() == before_src.to_multiset().remove(x));
            assert(out@.to_multiset().add(src@.to_multiset()) =~= before_out.to_multiset().add(
                before_src.to_multiset(),
            ));
        }
    }
    proof {
        assert(src@.to_multiset() =~= vstd::multiset::Multiset::<(u64, T)>::empty());
        assert(out@.to_multiset().add(src@.to_multiset()) =~= out@.to_multiset());
    }
    out
}

/// `a` comes no later than `b` in character order (by code point; for
/// UTF-8 text this is the byte order `str` compares by).
pub open spec fn name_le(a: Seq<char>, b: Seq<char>) -> bool
    decreases a.len(),
{
    if a.len() == 0 {
        true
    } else if b.len() == 0 {
        false
    } else if (a[0] as u32) != (b[0] as u32) {
        (a[0] as u32) < (b[0] as u32)
    } else {
        name_le(a.drop_first(), b.drop_first())
    }
}

/// Character order is total.
pub proof fn lemma_name_le_total(a: Seq<char>, b: Seq<char>)
    ensures
        name_le(a, b) || name_le(b, a),
    decreases a.len(),
{
    if a.len() > 0 && b.len() > 0 && (a[0] as u32) == (b[0] as u32) {
        lemma_name_le_total(a.drop_first(), b.drop_first());
    }
}

/// Character order is transitive.
pub proof fn lemma_name_le_trans(a: Seq<char>, b: Seq<char>, c: Seq<char>)
    requires
        name_le(a, b),
        name_le(b, c),
    ensures
        name_le(a, c),
    decreases a.len(),
{
    if a.len() > 0 && b.len() > 0 && c.len() > 0 && (a[0] as u32) == (b[0] as u32) && (b[0] as u32)
        == (c[0] as u32) {
        lemma_name_le_trans(a.drop_first(), b.drop_first(), c.drop_first());
    }
}

/// Compares two names in character order.
pub fn names_in_order(a: &str, b: &str) -> (r: bool)
    ensures
        r == name_le(a@, b@),
{
    let x = crate::text::to_chars(a);
    let y = crate::text::to_chars(b);
    let mut i: usize = 0;
    proof {
        assert(x@.subrange(0, x@.len() as int) =~= x@);
        assert(y@.subrange(0, y@.len() as int) =~= y@);
    }
    while i < x.len() && i < y.len() && (x[i] as u32) == (y[i] as u32)
        invariant
            i <= x@.len(),
            i <= y@.len(),
            name_le(x@, y@) == name_le(
                x@.subrange(i as int, x@.len() as int),
                y@.subrange(i as int, y@.len() as int),
            ),
        decreases x@.len() - i,
    {
        proof {
            let xs = x@.subrange(i as int, x@.len() as int);
            let ys = y@.subrange(i as int, y@.len() as int);
            assert(xs.drop_first() =~= x@.subrange(i + 1, x@.len() as int));
            assert(ys.drop_first() =~= y@.subrange(i + 1, y@.len() as int));
            assert(xs[0] == x@[i as int] && ys[0] == y@[i as int]);
        }
        i = i + 1;
    }
    proof {
        let xs = x@.subrange(i as int, x@.len() as int);
        let ys = y@.subrange(i as int, y@.len() as int);
        if xs.len() > 0 && ys.len() > 0 {
            assert(xs[0] == x@[i as int] && ys[0] == y@[i as int]);
        }
    }
    if i == x.len() {
        true
    } else if i == y.len() {
        false
    } else {
        (x[i] as u32) < (y[i] as u32)
    }
}

/// `v` is ordered by its names.
pub open spec fn asc_by_name<T>(v: Seq<(String, T)>) -> bool {
    forall|i: int, j: int| 0 <= i < j < v.len() ==> name_le(v[i].0@, v[j].0@)
}

/// Sorts by name in character order; entries with equal names keep their
/// order.
pub fn sort_by_name<T>(v: Vec<(String, T)>) -> (r: Vec<(String, T)>)
    ensures
        asc_by_name(r@),
        r@.to_multiset() == v@.to_multiset(),
{
    let ghost all = v@.to_multiset();
    let mut src = v;
    let mut out: Vec<(String, T)> = Vec::new();
    while src.len() > 0
        invariant
            asc_by_name(out@),
            out@.to_multiset().add(src@.to_multiset()) == all,
        decreases src@.len(),
    {
        let ghost before_src = src@;
        let x = src.remove(0);
        let mut p: usize = 0;
        while p < out.len() && names_in_order(out[p].0.as_str(), x.0.as_str())
            invariant
                p <= out@.len(),
                forall|i: int| 0 <= i < p ==> name_le(out@[i].0@, x.0@),
            decreases out@.len() - p,
        {
            p = p + 1;
        }
        let ghost before_out = out@;
        out.insert(p, x);
        proof {
            assert(out@ == before_out.insert(p as int, x));
            assert(src@ == before_src.remove(0));
            assert(before_src[0] == x);
            if p < before_out.len() {
                assert(!name_le(before_out[p as int].0@, x.0@));
                lemma_name_le_total(before_out[p as int].0@, x.0@);
            }
            assert forall|i: int, j: int| 0 <= i < j < out@.len() implies name_le(
                out@[i].0@,
                out@[j].0@,
            ) by {
                if j < p {
                } else if j == p {
                    assert(out@[i] == before_out[i]);
                } else if i < p {
                    assert(out@[i] == before_out[i]);
                    assert(out@[j] == before_out[j - 1]);
                    assert(name_le(before_out[i].0@, before_out[j - 1].0@));
                } else if i == p {
                    assert(out@[j] == before_out[j - 1]);
                    if j - 1 > p {
                        assert(name_le(before_out[p as int].0@, before_out[j - 1].0@));
                        lemma_name_le_trans(x.0@, before_out[p as int].0@, before_out[j - 1].0@);
                    }
                } else {
                    assert(out@[i] == before_out[i - 1]);
                    assert(out@[j] == before_out[j - 1]);
                }
            }
            assert(out@.to_multiset() == before_out.to_multiset().insert(x));
            assert(src@.to_multiset() == before_src.to_multiset().remove(x));
            assert(out@.to_multiset().add(src@.to_multiset()) =~= before_out.to_multiset().add(
                before_src.to_multiset(),
            ));
        }
    }
    proof {
        assert(src@.to_multiset() =~= vstd::multiset::Multiset::<(String, T)>::empty());
        assert(out@.to_multiset().add(src@.to_multiset()) =~= out@.to_multiset());
    }
    out
}

} // verus!
