//! The code-point order of attribute names, and sorting by it.

use crate::text::{chars_of, chars_precede, precedes};
use vstd::prelude::*;

verus! {

/// Every member of `q` comes strictly before every later member.
pub open spec fn ascending(q: Seq<Seq<char>>) -> bool {
    forall|i: int, j: int| 0 <= i < j < q.len() ==> precedes(#[trigger] q[i], #[trigger] q[j])
}

/// The members of a finite set of names, in ascending order.
pub open spec fn sorted_names(s: Set<Seq<char>>) -> Seq<Seq<char>> {
    choose|q: Seq<Seq<char>>| ascending(q) && q.to_set() == s
}

/// Appending a member adds it to the set of members.
pub proof fn lemma_push_to_set<A>(s: Seq<A>, x: A)
    ensures
        s.push(x).to_set() == s.to_set().insert(x),
{
    let t = s.push(x);
    assert forall|y: A| t.to_set().contains(y) <==> s.to_set().insert(x).contains(y) by {
        if t.to_set().contains(y) && y != x {
            let i = choose|i: int| 0 <= i < t.len() && t[i] == y;
            assert(s[i] == y);
        }
        if s.to_set().contains(y) {
            let i = choose|i: int| 0 <= i < s.len() && s[i] == y;
            assert(t[i] == y);
        }
        if y == x {
            assert(t[s.len() as int] == x);
        }
    }
    assert(t.to_set() =~= s.to_set().insert(x));
}

/// No name comes before itself.
pub proof fn lemma_precedes_irreflexive(a: Seq<char>)
    ensures
        !precedes(a, a),
    decreases a.len(),
{
    if a.len() > 0 {
        lemma_precedes_irreflexive(a.drop_first());
    }
}

/// The order is transitive.
pub proof fn lemma_precedes_transitive(a: Seq<char>, b: Seq<char>, c: Seq<char>)
    requires
        precedes(a, b),
        precedes(b, c),
    ensures
        precedes(a, c),
    decreases a.len(),
{
    if a.len() > 0 && b.len() > 0 && c.len() > 0 && a[0] == b[0] && b[0] == c[0] {
        lemma_precedes_transitive(a.drop_first(), b.drop_first(), c.drop_first());
    }
}

/// Of two different names, one comes before the other.
pub proof fn lemma_precedes_total(a: Seq<char>, b: Seq<char>)
    requires
        a != b,
    ensures
        precedes(a, b) || precedes(b, a),
    decreases a.len(),
{
    if a.len() > 0 && b.len() > 0 {
        if a[0] == b[0] {
            if a.drop_first() == b.drop_first() {
                assert(a =~= seq![a[0]] + a.drop_first());
                assert(b =~= seq![b[0]] + b.drop_first());
            }
            lemma_precedes_total(a.drop_first(), b.drop_first());
        } else {
            assert((a[0] as int) != (b[0] as int));
        }
    } else if a.len() == 0 && b.len() == 0 {
        assert(a =~= b);
    }
}

/// No two names come before each other.
pub proof fn lemma_precedes_asymmetric(a: Seq<char>, b: Seq<char>)
    requires
        precedes(a, b),
    ensures
        !precedes(b, a),
{
    if precedes(b, a) {
        lemma_precedes_transitive(a, b, a);
        lemma_precedes_irreflexive(a);
    }
}

/// An ascending sequence never repeats a name.
pub proof fn lemma_ascending_distinct(q: Seq<Seq<char>>)
    requires
        ascending(q),
    ensures
        q.no_duplicates(),
{
    assert forall|i: int, j: int| 0 <= i < q.len() && 0 <= j < q.len() && i != j implies q[i]
        != q[j] by {
        if i < j {
            assert(precedes(q[i], q[j]));
            lemma_precedes_irreflexive(q[i]);
        } else {
            assert(precedes(q[j], q[i]));
            lemma_precedes_irreflexive(q[j]);
        }
    }
}

/// Two ascending sequences with the same members are the same sequence.
pub proof fn lemma_ascending_unique(a: Seq<Seq<char>>, b: Seq<Seq<char>>)
    requires
        ascending(a),
        ascending(b),
        a.to_set() == b.to_set(),
    ensures
        a == b,
    decreases a.len(),
{
    lemma_ascending_distinct(a);
    lemma_ascending_distinct(b);
    a.unique_seq_to_set();
    b.unique_seq_to_set();
    if a.len() == 0 {
        assert(b =~= a);
    } else {
        assert(b.len() > 0);
        // The first members agree: each is the least member of the set.
        assert(b.to_set().contains(a[0]));
        let j = b.index_of(a[0]);
        assert(a.to_set().contains(b[0]));
        let k = a.index_of(b[0]);
        if j > 0 {
            assert(precedes(b[0], b[j]));
            if k > 0 {
                assert(precedes(a[0], a[k]));
                lemma_precedes_asymmetric(a[0], b[0]);
            } else {
                lemma_precedes_irreflexive(a[0]);
            }
        }
        assert(a[0] == b[0]);
        let ra = a.drop_first();
        let rb = b.drop_first();
        assert(ascending(ra)) by {
            assert forall|i: int, j: int| 0 <= i < j < ra.len() implies precedes(
                #[trigger] ra[i],
                #[trigger] ra[j],
            ) by {
                assert(precedes(a[i + 1], a[j + 1]));
            }
        }
        assert(ascending(rb)) by {
            assert forall|i: int, j: int| 0 <= i < j < rb.len() implies precedes(
                #[trigger] rb[i],
                #[trigger] rb[j],
            ) by {
                assert(precedes(b[i + 1], b[j + 1]));
            }
        }
        assert(ra.to_set() =~= rb.to_set()) by {
            assert forall|x: Seq<char>| ra.to_set().contains(x) implies rb.to_set().contains(x) by {
                let i = choose|i: int| 0 <= i < ra.len() && ra[i] == x;
                assert(a[i + 1] == x);
                assert(b.to_set().contains(x));
                let m = b.index_of(x);
                if m == 0 {
                    assert(a[0] == a[i + 1]);
                }
                assert(rb[m - 1] == x);
            }
            assert forall|x: Seq<char>| rb.to_set().contains(x) implies ra.to_set().contains(x) by {
                let i = choose|i: int| 0 <= i < rb.len() && rb[i] == x;
                assert(b[i + 1] == x);
                assert(a.to_set().contains(x));
                let m = a.index_of(x);
                if m == 0 {
                    assert(b[0] == b[i + 1]);
                }
                assert(ra[m - 1] == x);
            }
        }
        lemma_ascending_unique(ra, rb);
        assert(a =~= seq![a[0]] + ra);
        assert(b =~= seq![b[0]] + rb);
    }
}

/// A name missing from an ascending sequence has a place in it: everything
/// before the place comes before the name, everything after comes after it.
pub proof fn lemma_place(q: Seq<Seq<char>>, x: Seq<char>) -> (j: int)
    requires
        ascending(q),
        !q.contains(x),
    ensures
        0 <= j <= q.len(),
        forall|k: int| 0 <= k < j ==> precedes(#[trigger] q[k], x),
        forall|k: int| j <= k < q.len() ==> precedes(x, #[trigger] q[k]),
    decreases q.len(),
{
    if q.len() == 0 {
        0
    } else {
        let rest = q.drop_last();
        assert(ascending(rest)) by {
            assert forall|a: int, b: int| 0 <= a < b < rest.len() implies precedes(
                #[trigger] rest[a],
                #[trigger] rest[b],
            ) by {
                assert(precedes(q[a], q[b]));
            }
        }
        assert(!rest.contains(x)) by {
            if rest.contains(x) {
                let k = choose|k: int| 0 <= k < rest.len() && rest[k] == x;
                assert(q[k] == x);
            }
        }
        let j0 = lemma_place(rest, x);
        let last = q.last();
        assert(last != x) by {
            assert(q[q.len() - 1] == last);
        }
        if precedes(last, x) {
            assert forall|k: int| 0 <= k < q.len() implies precedes(#[trigger] q[k], x) by {
                if k < q.len() - 1 {
                    assert(rest[k] == q[k]);
                    if k >= j0 {
                        assert(precedes(x, q[k]));
                        assert(precedes(q[k], q[q.len() - 1]));
                        lemma_precedes_transitive(x, q[k], last);
                        lemma_precedes_asymmetric(x, last);
                    }
                }
            }
            q.len() as int
        } else {
            lemma_precedes_total(last, x);
            assert forall|k: int| 0 <= k < j0 implies precedes(#[trigger] q[k], x) by {
                assert(rest[k] == q[k]);
            }
            assert forall|k: int| j0 <= k < q.len() implies precedes(x, #[trigger] q[k]) by {
                if k < q.len() - 1 {
                    assert(rest[k] == q[k]);
                }
            }
            j0
        }
    }
}

/// Every finite set of names has an ascending listing.
pub proof fn lemma_sorted_names(s: Set<Seq<char>>)
    requires
        s.finite(),
    ensures
        ascending(sorted_names(s)),
        sorted_names(s).to_set() == s,
    decreases s.len(),
{
    if s.len() == 0 {
        let e = Seq::<Seq<char>>::empty();
        assert(e.to_set() =~= s);
        assert(ascending(e) && e.to_set() == s);
    } else {
        let x = s.choose();
        let r = s.remove(x);
        lemma_sorted_names(r);
        let q = sorted_names(r);
        assert(!q.contains(x)) by {
            if q.contains(x) {
                assert(q.to_set().contains(x));
            }
        }
        let j = lemma_place(q, x);
        let w = q.insert(j, x);
        assert forall|a: int, b: int| 0 <= a < b < w.len() implies precedes(
            #[trigger] w[a],
            #[trigger] w[b],
        ) by {
            if b < j {
                assert(precedes(q[a], q[b]));
            } else if a > j {
                assert(precedes(q[a - 1], q[b - 1]));
            } else if a == j {
                assert(precedes(x, q[b - 1]));
            } else if b == j {
                assert(precedes(q[a], x));
            } else {
                assert(precedes(q[a], q[b - 1]));
            }
        }
        assert(w.to_set() =~= s) by {
            assert forall|y: Seq<char>| w.to_set().contains(y) <==> s.contains(y) by {
                if w.to_set().contains(y) {
                    let i = choose|i: int| 0 <= i < w.len() && w[i] == y;
                    if i < j {
                        assert(q.to_set().contains(q[i]));
                    } else if i > j {
                        assert(q.to_set().contains(q[i - 1]));
                    }
                }
                if s.contains(y) {
                    if y == x {
                        assert(w[j] == x);
                    } else {
                        assert(r.contains(y));
                        assert(q.to_set().contains(y));
                        let i = choose|i: int| 0 <= i < q.len() && q[i] == y;
                        if i < j {
                            assert(w[i] == y);
                        } else {
                            assert(w[i + 1] == y);
                        }
                    }
                }
            }
        }
        assert(ascending(w) && w.to_set() == s);
    }
}

/// The names of `names`, in ascending order. The names must be distinct.
pub fn sort_names(names: Vec<String>) -> (r: Vec<String>)
    requires
        crate::text::views(names@).no_duplicates(),
    ensures
        ascending(crate::text::views(r@)),
        crate::text::views(r@).to_set() == crate::text::views(names@).to_set(),
        crate::text::views(r@) == sorted_names(crate::text::views(names@).to_set()),
{
    let ghost input = crate::text::views(names@);
    let mut rest = names;
    let mut out: Vec<String> = Vec::new();
    let mut out_chars: Vec<Vec<char>> = Vec::new();
    while rest.len() > 0
        invariant
            ascending(crate::text::views(out@)),
            out_chars@.len() == out@.len(),
            forall|i: int| 0 <= i < out@.len() ==> (#[trigger] out_chars@[i])@ == out@[i]@,
            crate::text::views(rest@).no_duplicates(),
            crate::text::views(rest@).to_set().disjoint(crate::text::views(out@).to_set()),
            crate::text::views(rest@).to_set() + crate::text::views(out@).to_set()
                == input.to_set(),
        decreases rest.len(),
    {
        let ghost old_rest = crate::text::views(rest@);
        let ghost old_out = crate::text::views(out@);
        let name = rest.pop().unwrap();
        let cs = chars_of(name.as_str());
        assert(old_rest.drop_last() =~= crate::text::views(rest@));
        assert(old_rest.last() == name@);
        // Find the first member that the new name comes before.
        let mut j: usize = 0;
        while j < out.len()
            invariant
                j <= out@.len(),
                out_chars@.len() == out@.len(),
                forall|i: int| 0 <= i < out@.len() ==> (#[trigger] out_chars@[i])@ == out@[i]@,
                forall|i: int| 0 <= i < j ==> !precedes(cs@, #[trigger] out@[i]@),
            ensures
                j <= out@.len(),
                forall|i: int| 0 <= i < j ==> !precedes(cs@, #[trigger] out@[i]@),
                j < out@.len() ==> precedes(cs@, out@[j as int]@),
            decreases out.len() - j,
        {
            if chars_precede(&cs, &out_chars[j]) {
                break;
            }
            j = j + 1;
        }
        proof {
            assert(!old_out.contains(name@)) by {
                if old_out.contains(name@) {
                    let k = old_out.index_of(name@);
                    assert(old_out.to_set().contains(name@));
                    assert(old_rest.to_set().contains(name@));
                }
            }
        }
        let ghost before = crate::text::views(out@);
        out.insert(j, name);
        out_chars.insert(j, cs);
        proof {
            let after = crate::text::views(out@);
            assert(after =~= before.insert(j as int, name@));
            assert forall|a: int, b: int| 0 <= a < b < after.len() implies precedes(
                #[trigger] after[a],
                #[trigger] after[b],
            ) by {
                if b < j {
                    assert(precedes(before[a], before[b]));
                } else if a > j {
                    assert(precedes(before[a - 1], before[b - 1]));
                } else if a == j {
                    // the new name comes before the member now at `b`
                    assert(j < before.len() && precedes(name@, before[j as int]));
                    if b - 1 > j {
                        assert(precedes(before[j as int], before[b - 1]));
                        lemma_precedes_transitive(name@, before[j as int], before[b - 1]);
                    }
                } else {
                    // a < j == b
                    assert(!precedes(name@, before[a]));
                    assert(before.contains(before[a]));
                    if before[a] == name@ {
                        assert(old_out.contains(name@));
                    }
                    lemma_precedes_total(before[a], name@);
                }
            }
            assert(after.to_set() =~= before.to_set().insert(name@)) by {
                assert forall|x: Seq<char>| after.to_set().contains(x) implies before.to_set().insert(
                    name@,
                ).contains(x) by {
                    let i = choose|i: int| 0 <= i < after.len() && after[i] == x;
                    if i < j {
                        assert(before[i] == x);
                    } else if i > j {
                        assert(before[i - 1] == x);
                    }
                }
                assert forall|x: Seq<char>| before.to_set().insert(name@).contains(x) implies after.to_set().contains(
                    x,
                ) by {
                    if x == name@ {
                        assert(after[j as int] == x);
                    } else {
                        let i = choose|i: int| 0 <= i < before.len() && before[i] == x;
                        if i < j {
                            assert(after[i] == x);
                        } else {
                            assert(after[i + 1] == x);
                        }
                    }
                }
            }
            assert(old_rest.to_set() =~= crate::text::views(rest@).to_set().insert(name@)) by {
                assert forall|x: Seq<char>| old_rest.to_set().contains(x) implies crate::text::views(rest@).to_set().insert(
                    name@,
                ).contains(x) by {
                    let i = choose|i: int| 0 <= i < old_rest.len() && old_rest[i] == x;
                    if i < old_rest.len() - 1 {
                        assert(crate::text::views(rest@)[i] == x);
                    }
                }
            }
            assert(crate::text::views(rest@).no_duplicates());
            assert(!crate::text::views(rest@).to_set().contains(name@)) by {
                if crate::text::views(rest@).to_set().contains(name@) {
                    let i = choose|i: int|
                        0 <= i < crate::text::views(rest@).len() && crate::text::views(rest@)[i]
                            == name@;
                    assert(old_rest[i] == old_rest[old_rest.len() - 1]);
                }
            }
            assert(crate::text::views(rest@).to_set().disjoint(after.to_set()));
            assert(crate::text::views(rest@).to_set() + after.to_set() =~= input.to_set());
        }
    }
    proof {
        let v = crate::text::views(out@);
        assert(crate::text::views(rest@).to_set() =~= Set::empty());
        assert(v.to_set() =~= input.to_set());
        let q = sorted_names(input.to_set());
        assert(ascending(v) && v.to_set() == input.to_set());
        lemma_ascending_unique(v, q);
    }
    out
}

} // verus!
