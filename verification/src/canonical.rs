//! Canonical sequences: the contents of a set or a map, kept in the order of
//! their keys with no key twice.

use vstd::prelude::*;
use crate::model::{lt, Model};
use crate::order::{lemma_lt_asymmetric, lemma_lt_irreflexive, lemma_lt_total, lemma_lt_transitive};

verus! {

/// Something that is placed in a collection by a key.
pub trait Keyed: Sized {
    spec fn key(self) -> Model;
}

/// An element of a set is its own key.
impl Keyed for Model {
    open spec fn key(self) -> Model {
        self
    }
}

/// An entry of a map is placed by its first component.
impl Keyed for (Model, Model) {
    open spec fn key(self) -> Model {
        self.0
    }
}

/// A field of an object is placed by its name, ordered as text.
impl Keyed for (Seq<char>, Model) {
    open spec fn key(self) -> Model {
        Model::Str(self.0)
    }
}

/// The keys ascend strictly: the sequence is in canonical order and holds no
/// key twice.
pub open spec fn sorted<E: Keyed>(s: Seq<E>) -> bool {
    forall|i: int, j: int| 0 <= i < j < s.len() ==> lt(#[trigger] s[i].key(), #[trigger] s[j].key())
}

/// Entries with the same key are the same entry.
pub open spec fn functional<E: Keyed>(s: Seq<E>) -> bool {
    forall|i: int, j: int|
        0 <= i < s.len() && 0 <= j < s.len() && #[trigger] s[i].key() == #[trigger] s[j].key()
            ==> s[i] == s[j]
}

/// A value is well formed when every set and map in it, at any depth, is
/// canonical.
pub open spec fn wf(m: Model) -> bool
    decreases m,
{
    match m {
        Model::Array(x) => forall|i: int| 0 <= i < x.len() ==> wf(#[trigger] x[i]),
        Model::SetOf(x) => sorted(x) && forall|i: int| 0 <= i < x.len() ==> wf(#[trigger] x[i]),
        Model::MapOf(x) => sorted(x) && forall|i: int|
            0 <= i < x.len() ==> wf((#[trigger] x[i]).0) && wf(x[i].1),
        Model::Object(x) => sorted(x) && forall|i: int|
            0 <= i < x.len() ==> wf((#[trigger] x[i]).1),
        _ => true,
    }
}

/// The first position at or after `i` whose key does not precede `k`.
pub open spec fn insert_point_from<E: Keyed>(s: Seq<E>, k: Model, i: int) -> int
    decreases s.len() - i,
{
    if i < 0 || i >= s.len() || !lt(s[i].key(), k) {
        i
    } else {
        insert_point_from(s, k, i + 1)
    }
}

/// The position at which an entry with key `k` belongs.
pub open spec fn insert_point<E: Keyed>(s: Seq<E>, k: Model) -> int {
    insert_point_from(s, k, 0)
}

/// The sequence after `e` was put into it: `e` takes the place of the entry
/// with its key, or is inserted where its key belongs.
pub open spec fn put<E: Keyed>(s: Seq<E>, e: E) -> Seq<E> {
    let p = insert_point(s, e.key());
    if p < s.len() && s[p].key() == e.key() {
        s.update(p, e)
    } else {
        s.insert(p, e)
    }
}

/// The canonical sequence that results from putting the entries of `xs`, one
/// after the other, into an empty collection.
pub open spec fn build<E: Keyed>(xs: Seq<E>) -> Seq<E>
    decreases xs.len(),
{
    if xs.len() == 0 {
        Seq::empty()
    } else {
        put(build(xs.drop_last()), xs.last())
    }
}

pub proof fn lemma_insert_point<E: Keyed>(s: Seq<E>, k: Model, i: int)
    requires
        0 <= i <= s.len(),
    ensures
        i <= insert_point_from(s, k, i) <= s.len(),
        forall|j: int| i <= j < insert_point_from(s, k, i) ==> lt(#[trigger] s[j].key(), k),
        insert_point_from(s, k, i) < s.len() ==> !lt(s[insert_point_from(s, k, i)].key(), k),
    decreases s.len() - i,
{
    if i < s.len() && lt(s[i].key(), k) {
        lemma_insert_point(s, k, i + 1);
    }
}

/// In a canonical sequence every key from the insert point on is `k` or
/// follows it, and only the entry at the insert point can have the key `k`.
pub proof fn lemma_insert_point_sorted<E: Keyed>(s: Seq<E>, k: Model)
    requires
        sorted(s),
    ensures
        0 <= insert_point(s, k) <= s.len(),
        forall|j: int| 0 <= j < insert_point(s, k) ==> lt(#[trigger] s[j].key(), k),
        forall|j: int|
            insert_point(s, k) <= j < s.len() && #[trigger] s[j].key() != k ==> lt(k, s[j].key()),
        forall|j: int|
            0 <= j < s.len() && #[trigger] s[j].key() == k ==> j == insert_point(s, k),
{
    let p = insert_point(s, k);
    lemma_insert_point(s, k, 0);
    assert forall|j: int| p <= j < s.len() && #[trigger] s[j].key() != k implies lt(
        k,
        s[j].key(),
    ) by {
        if lt(s[j].key(), k) {
            if j > p {
                assert(lt(s[p].key(), s[j].key()));
                lemma_lt_transitive(s[p].key(), s[j].key(), k);
            }
        }
        lemma_lt_total(s[j].key(), k);
    }
    assert forall|j: int| 0 <= j < s.len() && #[trigger] s[j].key() == k implies j == p by {
        lemma_lt_irreflexive(k);
        if j > p {
            assert(lt(s[p].key(), s[j].key()));
            if s[p].key() != k {
                lemma_lt_asymmetric(k, s[p].key());
            }
        }
    }
}

/// The insert point is the one position before which every key precedes
/// `k` and at which the key does not.
pub proof fn lemma_insert_point_is<E: Keyed>(s: Seq<E>, k: Model, p: int)
    requires
        0 <= p <= s.len(),
        forall|j: int| 0 <= j < p ==> lt(#[trigger] s[j].key(), k),
        p < s.len() ==> !lt(s[p].key(), k),
    ensures
        insert_point(s, k) == p,
{
    lemma_insert_point_reaches(s, k, 0, p);
}

proof fn lemma_insert_point_reaches<E: Keyed>(s: Seq<E>, k: Model, i: int, p: int)
    requires
        0 <= i <= p <= s.len(),
        forall|j: int| 0 <= j < p ==> lt(#[trigger] s[j].key(), k),
        p < s.len() ==> !lt(s[p].key(), k),
    ensures
        insert_point_from(s, k, i) == p,
    decreases p - i,
{
    if i < p {
        lemma_insert_point_reaches(s, k, i + 1, p);
    }
}

/// In a canonical sequence, every key up to one that precedes `k` precedes
/// `k` too.
pub proof fn lemma_precedes_up_to<E: Keyed>(s: Seq<E>, k: Model, mid: int)
    requires
        sorted(s),
        0 <= mid < s.len(),
        lt(s[mid].key(), k),
    ensures
        forall|j: int| 0 <= j <= mid ==> lt(#[trigger] s[j].key(), k),
{
    assert forall|j: int| 0 <= j <= mid implies lt(#[trigger] s[j].key(), k) by {
        if j < mid {
            assert(lt(s[j].key(), s[mid].key()));
            lemma_lt_transitive(s[j].key(), s[mid].key(), k);
        }
    }
}

/// Putting an entry keeps the sequence canonical, and changes its contents
/// as a map would: the entry is in, any other entry with its key is out, the
/// rest stays.
pub proof fn lemma_put<E: Keyed>(s: Seq<E>, e: E)
    requires
        sorted(s),
    ensures
        sorted(put(s, e)),
        forall|x: E|
            #[trigger] put(s, e).contains(x) <==> (x == e || (s.contains(x) && x.key() != e.key())),
{
    let k = e.key();
    let p = insert_point(s, k);
    let t = put(s, e);
    lemma_insert_point_sorted(s, k);
    lemma_lt_irreflexive(k);
    if p < s.len() && s[p].key() == k {
        assert forall|i: int, j: int| 0 <= i < j < t.len() implies lt(
            #[trigger] t[i].key(),
            #[trigger] t[j].key(),
        ) by {
            assert(lt(s[i].key(), s[j].key()));
        }
        assert forall|x: E| #[trigger]
            t.contains(x) <==> (x == e || (s.contains(x) && x.key() != k)) by {
            if t.contains(x) {
                let i = choose|i: int| 0 <= i < t.len() && t[i] == x;
                if i != p {
                    assert(s[i] == x);
                }
            }
            if x == e {
                assert(t[p] == x);
            }
            if s.contains(x) && x.key() != k {
                let i = choose|i: int| 0 <= i < s.len() && s[i] == x;
                assert(t[i] == x);
            }
        }
    } else {
        assert forall|i: int, j: int| 0 <= i < j < t.len() implies lt(
            #[trigger] t[i].key(),
            #[trigger] t[j].key(),
        ) by {
            let si = if i < p { i } else { i - 1 };
            let sj = if j < p { j } else { j - 1 };
            if i != p && j != p {
                assert(lt(s[si].key(), s[sj].key()));
            } else if i == p {
                assert(t[j] == s[sj]);
                assert(s[sj].key() != k);
            } else {
                assert(t[i] == s[si]);
            }
        }
        assert forall|x: E| #[trigger]
            t.contains(x) <==> (x == e || (s.contains(x) && x.key() != k)) by {
            if t.contains(x) {
                let i = choose|i: int| 0 <= i < t.len() && t[i] == x;
                if i < p {
                    assert(s[i] == x);
                } else if i > p {
                    assert(s[i - 1] == x);
                }
            }
            if x == e {
                assert(t[p] == x);
            }
            if s.contains(x) && x.key() != k {
                let i = choose|i: int| 0 <= i < s.len() && s[i] == x;
                if i < p {
                    assert(t[i] == x);
                } else {
                    assert(t[i + 1] == x);
                }
            }
        }
    }
}

/// An entry whose key follows every key of a canonical sequence goes to
/// its end.
pub proof fn lemma_put_last<E: Keyed>(s: Seq<E>, e: E)
    requires
        sorted(s),
        s.len() > 0 ==> lt(s.last().key(), e.key()),
    ensures
        put(s, e) == s.push(e),
{
    let k = e.key();
    lemma_insert_point_sorted(s, k);
    let p = insert_point(s, k);
    if p < s.len() {
        if p < s.len() - 1 {
            assert(lt(s[p].key(), s[s.len() - 1].key()));
            lemma_lt_transitive(s[p].key(), s.last().key(), k);
        }
        lemma_lt_asymmetric(s[p].key(), k);
        assert(false);
    }
    assert(s.insert(p, e) =~= s.push(e));
}

/// What was built is canonical.
pub proof fn lemma_build_sorted<E: Keyed>(xs: Seq<E>)
    ensures
        sorted(build(xs)),
    decreases xs.len(),
{
    if xs.len() > 0 {
        lemma_build_sorted(xs.drop_last());
        lemma_put(build(xs.drop_last()), xs.last());
    }
}

/// Building from a canonical sequence gives that sequence back.
pub proof fn lemma_build_of_sorted<E: Keyed>(xs: Seq<E>)
    requires
        sorted(xs),
    ensures
        build(xs) == xs,
    decreases xs.len(),
{
    if xs.len() > 0 {
        let front = xs.drop_last();
        assert forall|i: int, j: int| 0 <= i < j < front.len() implies lt(
            #[trigger] front[i].key(),
            #[trigger] front[j].key(),
        ) by {
            assert(lt(xs[i].key(), xs[j].key()));
        }
        lemma_build_of_sorted(front);
        if front.len() > 0 {
            assert(lt(xs[front.len() - 1].key(), xs[xs.len() - 1].key()));
        }
        lemma_put_last(front, xs.last());
        assert(front.push(xs.last()) =~= xs);
    } else {
        assert(xs =~= Seq::empty());
    }
}

/// Where no two entries share a key, building keeps exactly the entries given.
pub proof fn lemma_build_contains<E: Keyed>(xs: Seq<E>)
    requires
        functional(xs),
    ensures
        forall|x: E|
            #![trigger build(xs).contains(x)]
            #![trigger xs.contains(x)]
            build(xs).contains(x) <==> xs.contains(x),
    decreases xs.len(),
{
    if xs.len() > 0 {
        let front = xs.drop_last();
        let e = xs.last();
        assert forall|i: int, j: int|
            0 <= i < front.len() && 0 <= j < front.len() && #[trigger] front[i].key()
                == #[trigger] front[j].key() implies front[i] == front[j] by {
            assert(xs[i].key() == xs[j].key());
        }
        lemma_build_contains(front);
        lemma_build_sorted(front);
        lemma_put(build(front), e);
        assert forall|x: E|
            #![trigger build(xs).contains(x)]
            #![trigger xs.contains(x)]
            build(xs).contains(x) <==> xs.contains(x) by {
            if build(xs).contains(x) && x != e {
                assert(front.contains(x));
                let i = choose|i: int| 0 <= i < front.len() && front[i] == x;
                assert(xs[i] == x);
            }
            if x == e {
                assert(xs[xs.len() - 1] == x);
            }
            if xs.contains(x) && x != e {
                let i = choose|i: int| 0 <= i < xs.len() && xs[i] == x;
                assert(front[i] == x);
                assert(front.contains(x));
                assert(build(front).contains(x));
                assert(xs[i].key() == x.key());
                assert(xs[xs.len() - 1].key() == e.key());
            }
        }
    } else {
        assert(build(xs) =~= Seq::<E>::empty());
    }
}

/// A canonical sequence is determined by its contents.
pub proof fn lemma_sorted_unique<E: Keyed>(a: Seq<E>, b: Seq<E>)
    requires
        sorted(a),
        sorted(b),
        forall|x: E|
            #![trigger a.contains(x)]
            #![trigger b.contains(x)]
            a.contains(x) <==> b.contains(x),
    ensures
        a == b,
    decreases a.len(),
{
    if a.len() == 0 {
        if b.len() > 0 {
            assert(b.contains(b[0]));
        }
        assert(a =~= b);
    } else {
        assert(a.contains(a[0]));
        assert(b.contains(a[0]));
        let j = choose|j: int| 0 <= j < b.len() && b[j] == a[0];
        assert(b.contains(b[0]));
        let i = choose|i: int| 0 <= i < a.len() && a[i] == b[0];
        if a[0] != b[0] {
            assert(lt(a[0].key(), a[i].key()));
            assert(lt(b[0].key(), b[j].key()));
            lemma_lt_asymmetric(a[0].key(), b[0].key());
        }
        let ta = a.drop_first();
        let tb = b.drop_first();
        assert forall|x: E|
            #![trigger ta.contains(x)]
            #![trigger tb.contains(x)]
            ta.contains(x) <==> tb.contains(x) by {
            lemma_lt_irreflexive(a[0].key());
            if ta.contains(x) {
                let n = choose|n: int| 0 <= n < ta.len() && ta[n] == x;
                assert(a[n + 1] == x);
                assert(lt(a[0].key(), a[n + 1].key()));
                assert(a.contains(x));
                let m = choose|m: int| 0 <= m < b.len() && b[m] == x;
                assert(tb[m - 1] == x);
            }
            if tb.contains(x) {
                let n = choose|n: int| 0 <= n < tb.len() && tb[n] == x;
                assert(b[n + 1] == x);
                assert(lt(b[0].key(), b[n + 1].key()));
                assert(b.contains(x));
                let m = choose|m: int| 0 <= m < a.len() && a[m] == x;
                assert(ta[m - 1] == x);
            }
        }
        assert forall|i: int, j: int| 0 <= i < j < ta.len() implies lt(
            #[trigger] ta[i].key(),
            #[trigger] ta[j].key(),
        ) by {
            assert(lt(a[i + 1].key(), a[j + 1].key()));
        }
        assert forall|i: int, j: int| 0 <= i < j < tb.len() implies lt(
            #[trigger] tb[i].key(),
            #[trigger] tb[j].key(),
        ) by {
            assert(lt(b[i + 1].key(), b[j + 1].key()));
        }
        lemma_sorted_unique(ta, tb);
        assert(a =~= seq![a[0]] + ta);
        assert(b =~= seq![b[0]] + tb);
    }
}

/// The order in which entries are put does not show in what is built:
/// two sequences with the same entries, none of them with two values for one
/// key, build the same canonical sequence.
pub proof fn lemma_build_order_independent<E: Keyed>(xs: Seq<E>, ys: Seq<E>)
    requires
        functional(xs),
        forall|x: E|
            #![trigger xs.contains(x)]
            #![trigger ys.contains(x)]
            xs.contains(x) <==> ys.contains(x),
    ensures
        build(xs) == build(ys),
{
    assert forall|i: int, j: int|
        0 <= i < ys.len() && 0 <= j < ys.len() && #[trigger] ys[i].key()
            == #[trigger] ys[j].key() implies ys[i] == ys[j] by {
        assert(ys.contains(ys[i]));
        assert(ys.contains(ys[j]));
        let a = choose|a: int| 0 <= a < xs.len() && xs[a] == ys[i];
        let b = choose|b: int| 0 <= b < xs.len() && xs[b] == ys[j];
        assert(xs[a].key() == xs[b].key());
    }
    lemma_build_contains(xs);
    lemma_build_contains(ys);
    lemma_build_sorted(xs);
    lemma_build_sorted(ys);
    lemma_sorted_unique(build(xs), build(ys));
}

/// Building neither invents an entry nor lengthens the sequence.
pub proof fn lemma_build_within<E: Keyed>(xs: Seq<E>)
    ensures
        build(xs).len() <= xs.len(),
        forall|x: E| #[trigger] build(xs).contains(x) ==> xs.contains(x),
    decreases xs.len(),
{
    if xs.len() > 0 {
        let front = xs.drop_last();
        let e = xs.last();
        lemma_build_within(front);
        lemma_build_sorted(front);
        lemma_put(build(front), e);
        lemma_insert_point_sorted(build(front), e.key());
        assert forall|x: E| #[trigger] build(xs).contains(x) implies xs.contains(x) by {
            if x == e {
                assert(xs[xs.len() - 1] == x);
            } else {
                assert(front.contains(x));
                let i = choose|i: int| 0 <= i < front.len() && front[i] == x;
                assert(xs[i] == x);
            }
        }
    }
}

// ---------------------------------------------------------------------------
// Making a value canonical
// ---------------------------------------------------------------------------

/// The well-formed value that `m` stands for: every set and map in it, at
/// any depth, is built anew from what it lists, in the order listed.
pub open spec fn canonical(m: Model) -> Model
    decreases m,
{
    match m {
        Model::Array(x) => Model::Array(canonical_items(x)),
        Model::SetOf(x) => Model::SetOf(build(canonical_items(x))),
        Model::MapOf(x) => Model::MapOf(build(canonical_pairs(x))),
        Model::Object(x) => Model::Object(build(canonical_fields(x))),
        _ => m,
    }
}

/// Each value of `x`, made canonical.
pub open spec fn canonical_items(x: Seq<Model>) -> Seq<Model>
    decreases x,
{
    Seq::new(
        x.len(),
        |i: int|
            if 0 <= i < x.len() {
                canonical(x[i])
            } else {
                Model::Null
            },
    )
}

/// Each key and each value of `x`, made canonical.
pub open spec fn canonical_pairs(x: Seq<(Model, Model)>) -> Seq<(Model, Model)>
    decreases x,
{
    Seq::new(
        x.len(),
        |i: int|
            if 0 <= i < x.len() {
                (canonical(x[i].0), canonical(x[i].1))
            } else {
                (Model::Null, Model::Null)
            },
    )
}

/// Each field of `x` with its value made canonical.
pub open spec fn canonical_fields(x: Seq<(Seq<char>, Model)>) -> Seq<(Seq<char>, Model)>
    decreases x,
{
    Seq::new(
        x.len(),
        |i: int|
            if 0 <= i < x.len() {
                (x[i].0, canonical(x[i].1))
            } else {
                (Seq::empty(), Model::Null)
            },
    )
}

/// What was made canonical is well formed.
pub proof fn lemma_canonical_wf(m: Model)
    ensures
        wf(canonical(m)),
    decreases m,
{
    match m {
        Model::Array(x) => {
            let c = canonical_items(x);
            assert forall|i: int| 0 <= i < c.len() implies wf(#[trigger] c[i]) by {
                lemma_canonical_wf(x[i]);
            }
            assert(wf(Model::Array(c)));
        },
        Model::SetOf(x) => {
            let c = canonical_items(x);
            let b = build(c);
            lemma_build_sorted(c);
            lemma_build_within(c);
            assert forall|i: int| 0 <= i < b.len() implies wf(#[trigger] b[i]) by {
                assert(b.contains(b[i]));
                let j = choose|j: int| 0 <= j < c.len() && c[j] == b[i];
                lemma_canonical_wf(x[j]);
            }
        },
        Model::MapOf(x) => {
            let c = canonical_pairs(x);
            let b = build(c);
            lemma_build_sorted(c);
            lemma_build_within(c);
            assert forall|i: int| 0 <= i < b.len() implies wf((#[trigger] b[i]).0) && wf(
                b[i].1,
            ) by {
                assert(b.contains(b[i]));
                let j = choose|j: int| 0 <= j < c.len() && c[j] == b[i];
                lemma_canonical_wf(x[j].0);
                lemma_canonical_wf(x[j].1);
            }
        },
        Model::Object(x) => {
            let c = canonical_fields(x);
            let b = build(c);
            lemma_build_sorted(c);
            lemma_build_within(c);
            assert forall|i: int| 0 <= i < b.len() implies wf((#[trigger] b[i]).1) by {
                assert(b.contains(b[i]));
                let j = choose|j: int| 0 <= j < c.len() && c[j] == b[i];
                lemma_canonical_wf(x[j].1);
            }
        },
        _ => {},
    }
}

/// A well-formed value is its own canonical form.
pub proof fn lemma_canonical_of_wf(m: Model)
    requires
        wf(m),
    ensures
        canonical(m) == m,
    decreases m,
{
    match m {
        Model::Array(x) => {
            assert forall|i: int| 0 <= i < x.len() implies canonical_items(x)[i] == x[i] by {
                lemma_canonical_of_wf(x[i]);
            }
            assert(canonical_items(x) =~= x);
        },
        Model::SetOf(x) => {
            assert forall|i: int| 0 <= i < x.len() implies canonical_items(x)[i] == x[i] by {
                lemma_canonical_of_wf(x[i]);
            }
            assert(canonical_items(x) =~= x);
            lemma_build_of_sorted(x);
        },
        Model::MapOf(x) => {
            assert forall|i: int| 0 <= i < x.len() implies canonical_pairs(x)[i] == x[i] by {
                lemma_canonical_of_wf(x[i].0);
                lemma_canonical_of_wf(x[i].1);
            }
            assert(canonical_pairs(x) =~= x);
            lemma_build_of_sorted(x);
        },
        Model::Object(x) => {
            assert forall|i: int| 0 <= i < x.len() implies canonical_fields(x)[i] == x[i] by {
                lemma_canonical_of_wf(x[i].1);
            }
            assert(canonical_fields(x) =~= x);
            lemma_build_of_sorted(x);
        },
        _ => {},
    }
}

/// Making canonical twice is making canonical once.
pub proof fn lemma_canonical_idempotent(m: Model)
    ensures
        canonical(canonical(m)) == canonical(m),
{
    lemma_canonical_wf(m);
    lemma_canonical_of_wf(canonical(m));
}

} // verus!
