//! String order and the stable sort by name.

use vstd::prelude::*;
use vstd::utf8::*;
use vstd::string::*;
use vstd::seq_lib::*;

verus! {

/// Byte-wise lexicographic order, the order of `str` and `String`.
pub open spec fn lex_le(a: Seq<u8>, b: Seq<u8>) -> bool
    decreases a.len(),
{
    if a.len() == 0 {
        true
    } else if b.len() == 0 {
        false
    } else if a[0] != b[0] {
        a[0] < b[0]
    } else {
        lex_le(a.drop_first(), b.drop_first())
    }
}

/// Every sequence is at most itself.
pub proof fn lemma_lex_reflexive(a: Seq<u8>)
    ensures
        lex_le(a, a),
    decreases a.len(),
{
    if a.len() > 0 {
        lemma_lex_reflexive(a.drop_first());
    }
}

/// Any two sequences are ordered one way or the other.
pub proof fn lemma_lex_total(a: Seq<u8>, b: Seq<u8>)
    ensures
        lex_le(a, b) || lex_le(b, a),
    decreases a.len(),
{
    if a.len() > 0 && b.len() > 0 && a[0] == b[0] {
        lemma_lex_total(a.drop_first(), b.drop_first());
    }
}

/// Sequences ordered both ways are equal.
pub proof fn lemma_lex_antisymmetric(a: Seq<u8>, b: Seq<u8>)
    requires
        lex_le(a, b),
        lex_le(b, a),
    ensures
        a == b,
    decreases a.len(),
{
    if a.len() > 0 {
        lemma_lex_antisymmetric(a.drop_first(), b.drop_first());
        assert(a =~= seq![a[0]] + a.drop_first());
        assert(b =~= seq![b[0]] + b.drop_first());
    } else {
        assert(b.len() == 0);
        assert(a =~= b);
    }
}

/// The order is transitive.
pub proof fn lemma_lex_transitive(a: Seq<u8>, b: Seq<u8>, c: Seq<u8>)
    requires
        lex_le(a, b),
        lex_le(b, c),
    ensures
        lex_le(a, c),
    decreases a.len(),
{
    if a.len() > 0 && b.len() > 0 && c.len() > 0 && a[0] == b[0] && b[0] == c[0] {
        lemma_lex_transitive(a.drop_first(), b.drop_first(), c.drop_first());
    }
}

/// Whether `a` comes no later than `b` in byte-wise order.
pub fn bytes_le(a: &[u8], b: &[u8]) -> (r: bool)
    ensures
        r == lex_le(a@, b@),
{
    let mut i: usize = 0;
    assert(a@.skip(0) =~= a@);
    assert(b@.skip(0) =~= b@);
    while i < a.len() && i < b.len()
        invariant
            i <= a@.len(),
            i <= b@.len(),
            lex_le(a@, b@) == lex_le(a@.skip(i as int), b@.skip(i as int)),
        decreases a@.len() - i,
    {
        assert(a@.skip(i as int)[0] == a@[i as int]);
        assert(b@.skip(i as int)[0] == b@[i as int]);
        if a[i] != b[i] {
            return a[i] < b[i];
        }
        assert(a@.skip(i as int).drop_first() =~= a@.skip(i + 1));
        assert(b@.skip(i as int).drop_first() =~= b@.skip(i + 1));
        i += 1;
    }
    assert(i == a@.len() ==> a@.skip(i as int).len() == 0);
    assert(i == b@.len() ==> b@.skip(i as int).len() == 0);
    i == a.len()
}

/// Something sorted by a name.
pub trait Named {
    /// The UTF-8 bytes of the name.
    spec fn name_bytes(&self) -> Seq<u8>;

    /// The name.
    fn name_str(&self) -> (r: &str)
        ensures
            r.spec_bytes() == self.name_bytes(),
    ;
}

/// The items whose name is `k`, in order.
pub open spec fn named<T: Named>(s: Seq<T>, k: Seq<u8>) -> Seq<T> {
    s.filter(name_is(k))
}

/// Holds of the items named `k`.
pub open spec fn name_is<T: Named>(k: Seq<u8>) -> spec_fn(T) -> bool {
    |x: T| x.name_bytes() == k
}

/// The items are in order of their names.
pub open spec fn sorted_by_name<T: Named>(s: Seq<T>) -> bool {
    forall|a: int, b: int| 0 <= a < b < s.len() ==> lex_le(#[trigger] s[a].name_bytes(), #[trigger] s[b].name_bytes())
}

/// `r` is `s` sorted by name, items with equal names in their order in `s`.
pub open spec fn stably_sorted<T: Named>(s: Seq<T>, r: Seq<T>) -> bool {
    &&& sorted_by_name(r)
    &&& forall|k: Seq<u8>| #[trigger] named(r, k) == named(s, k)
}

/// Inserting `x` where every item before is no later and every item after is
/// later adds `x` to the end of the items with its name.
proof fn lemma_insert_named<T: Named>(s: Seq<T>, j: int, x: T, k: Seq<u8>)
    requires
        0 <= j <= s.len(),
        forall|m: int| j <= m < s.len() ==> #[trigger] s[m].name_bytes() != x.name_bytes(),
    ensures
        named(s.insert(j, x), k) == if k == x.name_bytes() {
            named(s, k).push(x)
        } else {
            named(s, k)
        },
{
    let pred = name_is::<T>(k);
    let a = s.take(j);
    let b = s.skip(j);
    assert(s.insert(j, x) =~= a + seq![x] + b);
    assert(s =~= a + b);
    Seq::filter_distributes_over_add(a + seq![x], b, pred);
    Seq::filter_distributes_over_add(a, seq![x], pred);
    Seq::filter_distributes_over_add(a, b, pred);
    reveal_with_fuel(Seq::filter, 2);
    assert(seq![x].drop_last() =~= Seq::<T>::empty());
    if k == x.name_bytes() {
        assert(b.filter(pred).len() == 0) by {
            if b.filter(pred).len() > 0 {
                let y = b.filter(pred)[0];
                b.lemma_filter_pred(pred, 0);
                assert(b.filter(pred).contains(y));
                b.lemma_filter_contains_rev(pred, y);
                let m = choose|m: int| 0 <= m < b.len() && b[m] == y;
                assert(b[m] == s[j + m]);
            }
        }
        assert(b.filter(pred) =~= Seq::<T>::empty());
    }
}

/// The items of `v` sorted by name; items with equal names keep their order
/// (a stable sort, as `slice::sort_by` is).
pub fn sort_by_name<T: Named>(v: Vec<T>) -> (r: Vec<T>)
    ensures
        stably_sorted(v@, r@),
{
    let ghost orig = v@;
    let mut rest = v;
    let mut out: Vec<T> = Vec::new();
    let ghost mut i: int = 0;
    assert forall|k: Seq<u8>| #[trigger] named(out@, k) == named(orig.take(0), k) by {
        assert(out@ =~= orig.take(0));
    }
    while rest.len() > 0
        invariant
            0 <= i <= orig.len(),
            rest@ == orig.skip(i),
            sorted_by_name(out@),
            forall|k: Seq<u8>| #[trigger] named(out@, k) == named(orig.take(i), k),
        decreases rest@.len(),
    {
        let x = rest.remove(0);
        assert(x == orig[i]);
        let mut j: usize = 0;
        while j < out.len()
            invariant
                j <= out@.len(),
                forall|m: int| 0 <= m < j ==> lex_le(#[trigger] out@[m].name_bytes(), x.name_bytes()),
            ensures
                j <= out@.len(),
                forall|m: int| 0 <= m < j ==> lex_le(#[trigger] out@[m].name_bytes(), x.name_bytes()),
                j < out@.len() ==> !lex_le(out@[j as int].name_bytes(), x.name_bytes()),
            decreases out@.len() - j,
        {
            if !bytes_le(out[j].name_str().as_bytes(), x.name_str().as_bytes()) {
                break;
            }
            j += 1;
        }
        proof {
            assert forall|m: int| j <= m < out@.len() implies #[trigger] out@[m].name_bytes() != x.name_bytes() && lex_le(x.name_bytes(), out@[m].name_bytes()) by {
                lemma_lex_total(x.name_bytes(), out@[j as int].name_bytes());
                lemma_lex_reflexive(x.name_bytes());
                if m > j {
                    assert(lex_le(out@[j as int].name_bytes(), out@[m].name_bytes()));
                    lemma_lex_transitive(x.name_bytes(), out@[j as int].name_bytes(), out@[m].name_bytes());
                }
            }
        }
        let ghost before = out@;
        out.insert(j, x);
        proof {
            assert(out@ == before.insert(j as int, x));
            assert forall|a: int, b: int| 0 <= a < b < out@.len() implies lex_le(#[trigger] out@[a].name_bytes(), #[trigger] out@[b].name_bytes()) by {
                if b < j {
                } else if a < j && b == j {
                } else if a < j {
                    lemma_lex_transitive(out@[a].name_bytes(), x.name_bytes(), out@[b].name_bytes());
                } else if a == j {
                } else {
                }
            }
            assert(orig.take(i + 1) =~= orig.take(i).push(x));
            assert forall|k: Seq<u8>| #[trigger] named(out@, k) == named(orig.take(i + 1), k) by {
                lemma_insert_named(before, j as int, x, k);
                let pred = name_is::<T>(k);
                Seq::filter_distributes_over_add(orig.take(i), seq![x], pred);
                reveal_with_fuel(Seq::filter, 2);
                assert(seq![x].drop_last() =~= Seq::<T>::empty());
                assert(orig.take(i).push(x) =~= orig.take(i) + seq![x]);
            }
            i = i + 1;
            assert(rest@ =~= orig.skip(i));
        }
    }
    proof {
        assert(orig.take(i) =~= orig);
    }
    out
}

/// Filtering by a property of the images and mapping commute.
pub proof fn lemma_filter_map_values<A, B>(
    s: Seq<A>,
    f: spec_fn(A) -> B,
    p: spec_fn(B) -> bool,
    q: spec_fn(A) -> bool,
)
    requires
        forall|a: A| #[trigger] q(a) == p(f(a)),
    ensures
        s.filter(q).map_values(f) == s.map_values(f).filter(p),
    decreases s.len(),
{
    reveal(Seq::filter);
    if s.len() > 0 {
        lemma_filter_map_values(s.drop_last(), f, p, q);
        assert(s.map_values(f).drop_last() =~= s.drop_last().map_values(f));
        assert(s.map_values(f).last() == f(s.last()));
        if q(s.last()) {
            assert(s.filter(q).map_values(f) =~= s.drop_last().filter(q).map_values(f).push(f(s.last())));
        } else {
            assert(s.filter(q).map_values(f) =~= s.drop_last().filter(q).map_values(f));
        }
    } else {
        assert(s.filter(q).map_values(f) =~= s.map_values(f).filter(p));
    }
}

/// A stable sort of something is not empty.
pub proof fn lemma_stably_sorted_nonempty<T: Named>(s: Seq<T>, r: Seq<T>)
    requires
        stably_sorted(s, r),
        s.len() > 0,
    ensures
        r.len() > 0,
{
    let k = s[0].name_bytes();
    s.lemma_filter_contains(name_is(k), 0);
    assert(named(r, k) == named(s, k));
    r.lemma_filter_len(name_is(k));
}

} // verus!
