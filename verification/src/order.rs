//! Proofs that the canonical order is a strict total order.

use vstd::prelude::*;
use vstd::utf8::{encode_utf8, encode_utf8_decode_utf8};
use crate::model::{
    bytes_lt_from, entries_lt_from, entry_lt, lt, pair_lt, pairs_lt_from, rank, seq_lt_from,
    text_lt, Model,
};

verus! {

// ---------------------------------------------------------------------------
// Byte strings and text
// ---------------------------------------------------------------------------

pub proof fn lemma_bytes_irreflexive(x: Seq<u8>, i: int)
    ensures
        !bytes_lt_from(x, x, i),
    decreases x.len() - i,
{
    if 0 <= i < x.len() {
        lemma_bytes_irreflexive(x, i + 1);
    }
}

pub proof fn lemma_bytes_total(x: Seq<u8>, y: Seq<u8>, i: int)
    requires
        0 <= i <= x.len(),
        i <= y.len(),
        forall|j: int| 0 <= j < i ==> x[j] == y[j],
        x != y,
    ensures
        bytes_lt_from(x, y, i) || bytes_lt_from(y, x, i),
    decreases x.len() - i,
{
    if i >= x.len() && i >= y.len() {
        assert(x =~= y);
    } else if i < x.len() && i < y.len() && x[i] == y[i] {
        lemma_bytes_total(x, y, i + 1);
    }
}

pub proof fn lemma_bytes_transitive(x: Seq<u8>, y: Seq<u8>, z: Seq<u8>, i: int)
    requires
        0 <= i,
        bytes_lt_from(x, y, i),
        bytes_lt_from(y, z, i),
    ensures
        bytes_lt_from(x, z, i),
    decreases x.len() - i,
{
    if i < x.len() && x[i] == y[i] && y[i] == z[i] {
        lemma_bytes_transitive(x, y, z, i + 1);
    }
}

pub proof fn lemma_text_irreflexive(x: Seq<char>)
    ensures
        !text_lt(x, x),
{
    lemma_bytes_irreflexive(encode_utf8(x), 0);
}

pub proof fn lemma_text_total(x: Seq<char>, y: Seq<char>)
    requires
        x != y,
    ensures
        text_lt(x, y) || text_lt(y, x),
{
    encode_utf8_decode_utf8(x);
    encode_utf8_decode_utf8(y);
    lemma_bytes_total(encode_utf8(x), encode_utf8(y), 0);
}

pub proof fn lemma_text_transitive(x: Seq<char>, y: Seq<char>, z: Seq<char>)
    requires
        text_lt(x, y),
        text_lt(y, z),
    ensures
        text_lt(x, z),
{
    lemma_bytes_transitive(encode_utf8(x), encode_utf8(y), encode_utf8(z), 0);
}

// ---------------------------------------------------------------------------
// Irreflexivity
// ---------------------------------------------------------------------------

proof fn lemma_seq_irreflexive(x: Seq<Model>, i: int)
    ensures
        !seq_lt_from(x, x, i),
    decreases x.len() - i,
{
    if 0 <= i < x.len() {
        lemma_seq_irreflexive(x, i + 1);
    }
}

proof fn lemma_pairs_irreflexive(x: Seq<(Model, Model)>, i: int)
    ensures
        !pairs_lt_from(x, x, i),
    decreases x.len() - i,
{
    if 0 <= i < x.len() {
        lemma_pairs_irreflexive(x, i + 1);
    }
}

proof fn lemma_entries_irreflexive(x: Seq<(Seq<char>, Model)>, i: int)
    ensures
        !entries_lt_from(x, x, i),
    decreases x.len() - i,
{
    if 0 <= i < x.len() {
        lemma_entries_irreflexive(x, i + 1);
    }
}

/// No value precedes itself.
pub proof fn lemma_lt_irreflexive(a: Model)
    ensures
        !lt(a, a),
{
    match a {
        Model::Id(x) => lemma_text_irreflexive(x),
        Model::Str(x) => lemma_text_irreflexive(x),
        Model::Bytes(x) => lemma_bytes_irreflexive(x, 0),
        Model::Array(x) => lemma_seq_irreflexive(x, 0),
        Model::SetOf(x) => lemma_seq_irreflexive(x, 0),
        Model::MapOf(x) => lemma_pairs_irreflexive(x, 0),
        Model::Object(x) => lemma_entries_irreflexive(x, 0),
        _ => {},
    }
}

// ---------------------------------------------------------------------------
// Totality
// ---------------------------------------------------------------------------

/// Of two different values, one precedes the other.
pub proof fn lemma_lt_total(a: Model, b: Model)
    requires
        a != b,
    ensures
        lt(a, b) || lt(b, a),
    decreases a, 0nat,
{
    if rank(a) == rank(b) {
        match (a, b) {
            (Model::Id(x), Model::Id(y)) => lemma_text_total(x, y),
            (Model::Str(x), Model::Str(y)) => lemma_text_total(x, y),
            (Model::Bytes(x), Model::Bytes(y)) => lemma_bytes_total(x, y, 0),
            (Model::Array(x), Model::Array(y)) => lemma_seq_total(x, y, 0),
            (Model::SetOf(x), Model::SetOf(y)) => lemma_seq_total(x, y, 0),
            (Model::MapOf(x), Model::MapOf(y)) => lemma_pairs_total(x, y, 0),
            (Model::Object(x), Model::Object(y)) => lemma_entries_total(x, y, 0),
            _ => {},
        }
    }
}

proof fn lemma_seq_total(x: Seq<Model>, y: Seq<Model>, i: int)
    requires
        0 <= i <= x.len(),
        i <= y.len(),
        forall|j: int| 0 <= j < i ==> x[j] == y[j],
        x != y,
    ensures
        seq_lt_from(x, y, i) || seq_lt_from(y, x, i),
    decreases x, x.len() - i,
{
    if i >= x.len() && i >= y.len() {
        assert(x =~= y);
    } else if i < x.len() && i < y.len() {
        if x[i] == y[i] {
            lemma_seq_total(x, y, i + 1);
        } else {
            lemma_lt_total(x[i], y[i]);
        }
    }
}

proof fn lemma_pair_total(p: (Model, Model), q: (Model, Model))
    requires
        p != q,
    ensures
        pair_lt(p, q) || pair_lt(q, p),
    decreases p, 0nat,
{
    if p.0 != q.0 {
        lemma_lt_total(p.0, q.0);
    } else {
        lemma_lt_total(p.1, q.1);
    }
}

proof fn lemma_pairs_total(x: Seq<(Model, Model)>, y: Seq<(Model, Model)>, i: int)
    requires
        0 <= i <= x.len(),
        i <= y.len(),
        forall|j: int| 0 <= j < i ==> x[j] == y[j],
        x != y,
    ensures
        pairs_lt_from(x, y, i) || pairs_lt_from(y, x, i),
    decreases x, x.len() - i,
{
    if i >= x.len() && i >= y.len() {
        assert(x =~= y);
    } else if i < x.len() && i < y.len() {
        if x[i] == y[i] {
            lemma_pairs_total(x, y, i + 1);
        } else {
            lemma_pair_total(x[i], y[i]);
        }
    }
}

proof fn lemma_entry_total(p: (Seq<char>, Model), q: (Seq<char>, Model))
    requires
        p != q,
    ensures
        entry_lt(p, q) || entry_lt(q, p),
    decreases p, 0nat,
{
    if p.0 != q.0 {
        lemma_text_total(p.0, q.0);
    } else {
        lemma_lt_total(p.1, q.1);
    }
}

proof fn lemma_entries_total(x: Seq<(Seq<char>, Model)>, y: Seq<(Seq<char>, Model)>, i: int)
    requires
        0 <= i <= x.len(),
        i <= y.len(),
        forall|j: int| 0 <= j < i ==> x[j] == y[j],
        x != y,
    ensures
        entries_lt_from(x, y, i) || entries_lt_from(y, x, i),
    decreases x, x.len() - i,
{
    if i >= x.len() && i >= y.len() {
        assert(x =~= y);
    } else if i < x.len() && i < y.len() {
        if x[i] == y[i] {
            lemma_entries_total(x, y, i + 1);
        } else {
            lemma_entry_total(x[i], y[i]);
        }
    }
}

// ---------------------------------------------------------------------------
// Transitivity
// ---------------------------------------------------------------------------

/// The order is transitive.
pub proof fn lemma_lt_transitive(a: Model, b: Model, c: Model)
    requires
        lt(a, b),
        lt(b, c),
    ensures
        lt(a, c),
    decreases a, 0nat,
{
    if rank(a) == rank(b) && rank(b) == rank(c) {
        match (a, b, c) {
            (Model::Id(x), Model::Id(y), Model::Id(z)) => lemma_text_transitive(x, y, z),
            (Model::Str(x), Model::Str(y), Model::Str(z)) => lemma_text_transitive(x, y, z),
            (Model::Bytes(x), Model::Bytes(y), Model::Bytes(z)) => lemma_bytes_transitive(
                x,
                y,
                z,
                0,
            ),
            (Model::Array(x), Model::Array(y), Model::Array(z)) => lemma_seq_transitive(
                x,
                y,
                z,
                0,
            ),
            (Model::SetOf(x), Model::SetOf(y), Model::SetOf(z)) => lemma_seq_transitive(
                x,
                y,
                z,
                0,
            ),
            (Model::MapOf(x), Model::MapOf(y), Model::MapOf(z)) => lemma_pairs_transitive(
                x,
                y,
                z,
                0,
            ),
            (Model::Object(x), Model::Object(y), Model::Object(z)) => lemma_entries_transitive(
                x,
                y,
                z,
                0,
            ),
            _ => {},
        }
    }
}

proof fn lemma_seq_transitive(x: Seq<Model>, y: Seq<Model>, z: Seq<Model>, i: int)
    requires
        0 <= i,
        seq_lt_from(x, y, i),
        seq_lt_from(y, z, i),
    ensures
        seq_lt_from(x, z, i),
    decreases x, x.len() - i,
{
    if i < x.len() {
        if x[i] == y[i] && y[i] == z[i] {
            lemma_seq_transitive(x, y, z, i + 1);
        } else if x[i] != y[i] && y[i] != z[i] {
            lemma_lt_transitive(x[i], y[i], z[i]);
            lemma_lt_irreflexive(x[i]);
        }
    }
}

proof fn lemma_pair_transitive(p: (Model, Model), q: (Model, Model), r: (Model, Model))
    requires
        p != q,
        q != r,
        pair_lt(p, q),
        pair_lt(q, r),
    ensures
        pair_lt(p, r),
        p != r,
    decreases p, 0nat,
{
    if p.0 != q.0 && q.0 != r.0 {
        lemma_lt_transitive(p.0, q.0, r.0);
        lemma_lt_irreflexive(p.0);
    } else if p.0 == q.0 && q.0 == r.0 {
        lemma_lt_transitive(p.1, q.1, r.1);
        lemma_lt_irreflexive(p.1);
    }
}

proof fn lemma_pairs_transitive(
    x: Seq<(Model, Model)>,
    y: Seq<(Model, Model)>,
    z: Seq<(Model, Model)>,
    i: int,
)
    requires
        0 <= i,
        pairs_lt_from(x, y, i),
        pairs_lt_from(y, z, i),
    ensures
        pairs_lt_from(x, z, i),
    decreases x, x.len() - i,
{
    if i < x.len() {
        if x[i] == y[i] && y[i] == z[i] {
            lemma_pairs_transitive(x, y, z, i + 1);
        } else if x[i] != y[i] && y[i] != z[i] {
            lemma_pair_transitive(x[i], y[i], z[i]);
        }
    }
}

proof fn lemma_entry_transitive(
    p: (Seq<char>, Model),
    q: (Seq<char>, Model),
    r: (Seq<char>, Model),
)
    requires
        p != q,
        q != r,
        entry_lt(p, q),
        entry_lt(q, r),
    ensures
        entry_lt(p, r),
        p != r,
    decreases p, 0nat,
{
    if p.0 != q.0 && q.0 != r.0 {
        lemma_text_transitive(p.0, q.0, r.0);
        lemma_text_irreflexive(p.0);
    } else if p.0 == q.0 && q.0 == r.0 {
        lemma_lt_transitive(p.1, q.1, r.1);
        lemma_lt_irreflexive(p.1);
    }
}

proof fn lemma_entries_transitive(
    x: Seq<(Seq<char>, Model)>,
    y: Seq<(Seq<char>, Model)>,
    z: Seq<(Seq<char>, Model)>,
    i: int,
)
    requires
        0 <= i,
        entries_lt_from(x, y, i),
        entries_lt_from(y, z, i),
    ensures
        entries_lt_from(x, z, i),
    decreases x, x.len() - i,
{
    if i < x.len() {
        if x[i] == y[i] && y[i] == z[i] {
            lemma_entries_transitive(x, y, z, i + 1);
        } else if x[i] != y[i] && y[i] != z[i] {
            lemma_entry_transitive(x[i], y[i], z[i]);
        }
    }
}

/// Two values never precede each other.
pub proof fn lemma_lt_asymmetric(a: Model, b: Model)
    requires
        lt(a, b),
    ensures
        !lt(b, a),
        a != b,
{
    lemma_lt_irreflexive(a);
    if lt(b, a) {
        lemma_lt_transitive(a, b, a);
    }
}

} // verus!
