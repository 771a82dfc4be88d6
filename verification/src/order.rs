//! The order of `str` (code point by code point, a proper prefix first) and
//! stable sorting of a list of texts by it.
use vstd::prelude::*;

verus! {

/// `a` comes before `b` in the order of `str`. UTF-8 keeps code point order,
/// so comparing bytes and comparing characters agree.
pub open spec fn lex_lt(a: Seq<char>, b: Seq<char>) -> bool
    decreases a.len(),
{
    if a.len() == 0 {
        b.len() > 0
    } else if b.len() == 0 {
        false
    } else if a[0] != b[0] {
        a[0] < b[0]
    } else {
        lex_lt(a.drop_first(), b.drop_first())
    }
}

/// No text comes before itself, and of two texts at most one comes first.
pub proof fn lemma_lex_asym(a: Seq<char>, b: Seq<char>)
    ensures
        !(lex_lt(a, b) && lex_lt(b, a)),
    decreases a.len(),
{
    if a.len() > 0 && b.len() > 0 && a[0] == b[0] {
        lemma_lex_asym(a.drop_first(), b.drop_first());
    }
}

/// The order is transitive.
pub proof fn lemma_lex_trans(a: Seq<char>, b: Seq<char>, c: Seq<char>)
    requires
        lex_lt(a, b),
        lex_lt(b, c),
    ensures
        lex_lt(a, c),
    decreases a.len(),
{
    if a.len() > 0 && b.len() > 0 && c.len() > 0 && a[0] == b[0] && b[0] == c[0] {
        lemma_lex_trans(a.drop_first(), b.drop_first(), c.drop_first());
    }
}

/// Of two different texts one comes first.
pub proof fn lemma_lex_total(a: Seq<char>, b: Seq<char>)
    requires
        a != b,
    ensures
        lex_lt(a, b) || lex_lt(b, a),
    decreases a.len(),
{
    if a.len() == 0 && b.len() == 0 {
        assert(a =~= b);
    } else if a.len() > 0 && b.len() > 0 && a[0] == b[0] {
        if a.drop_first() == b.drop_first() {
            assert(a.drop_first().len() == b.drop_first().len());
            assert(a.len() == b.len());
            assert forall|i: int| 0 <= i < a.len() implies a[i] == b[i] by {
                if i > 0 {
                    assert(a[i] == a.drop_first()[i - 1]);
                    assert(b[i] == b.drop_first()[i - 1]);
                }
            }
            assert(a =~= b);
        }
        lemma_lex_total(a.drop_first(), b.drop_first());
    }
}

/// Whether `a` comes before `b`.
pub fn text_less(a: &Vec<char>, b: &Vec<char>) -> (r: bool)
    ensures
        r == lex_lt(a@, b@),
{
    let mut i: usize = 0;
    assert(a@.subrange(0, a@.len() as int) =~= a@);
    assert(b@.subrange(0, b@.len() as int) =~= b@);
    while i < a.len() && i < b.len() && a[i] == b[i]
        invariant
            i <= a.len(),
            i <= b.len(),
            lex_lt(a@, b@) == lex_lt(
                a@.subrange(i as int, a@.len() as int),
                b@.subrange(i as int, b@.len() as int),
            ),
        decreases a.len() - i,
    {
        let ghost sa = a@.subrange(i as int, a@.len() as int);
        let ghost sb = b@.subrange(i as int, b@.len() as int);
        assert(sa.drop_first() =~= a@.subrange(i + 1, a@.len() as int));
        assert(sb.drop_first() =~= b@.subrange(i + 1, b@.len() as int));
        i = i + 1;
    }
    if i == a.len() {
        i < b.len()
    } else if i == b.len() {
        false
    } else {
        a[i] < b[i]
    }
}

/// Index `i` comes before index `j` when sorting `ks` stably: by text, and
/// equal texts in the order they stand.
pub open spec fn before(ks: Seq<Seq<char>>, i: int, j: int) -> bool {
    lex_lt(ks[i], ks[j]) || (ks[i] == ks[j] && i < j)
}

proof fn lemma_before_asym(ks: Seq<Seq<char>>, i: int, j: int)
    ensures
        !(before(ks, i, j) && before(ks, j, i)),
{
    lemma_lex_asym(ks[i], ks[j]);
    if ks[i] == ks[j] {
        lemma_lex_asym(ks[i], ks[i]);
    }
}

proof fn lemma_before_trans(ks: Seq<Seq<char>>, i: int, j: int, k: int)
    requires
        before(ks, i, j),
        before(ks, j, k),
    ensures
        before(ks, i, k),
{
    if lex_lt(ks[i], ks[j]) && lex_lt(ks[j], ks[k]) {
        lemma_lex_trans(ks[i], ks[j], ks[k]);
    }
}

proof fn lemma_before_total(ks: Seq<Seq<char>>, i: int, j: int)
    requires
        i != j,
    ensures
        before(ks, i, j) || before(ks, j, i),
{
    if ks[i] != ks[j] {
        lemma_lex_total(ks[i], ks[j]);
    }
}

/// `i` stands somewhere in `ord`.
pub open spec fn has_index(ord: Seq<usize>, i: int) -> bool {
    exists|p: int| 0 <= p < ord.len() && ord[p] == i
}

/// `ord` lists every index of `ks` once, in sorted order.
pub open spec fn sorts(ks: Seq<Seq<char>>, ord: Seq<usize>) -> bool {
    &&& ord.len() == ks.len()
    &&& forall|p: int| 0 <= p < ord.len() ==> ord[p] < ks.len()
    &&& forall|p: int, q: int| 0 <= p < q < ord.len() ==> ord[p] != ord[q]
    &&& forall|i: int| 0 <= i < ks.len() ==> #[trigger] has_index(ord, i)
    &&& forall|p: int, q: int|
        0 <= p < q < ord.len() ==> before(ks, ord[p] as int, ord[q] as int)
}

/// The stable sorting order of `ks`.
pub open spec fn sorted_order(ks: Seq<Seq<char>>) -> Seq<usize> {
    choose|ord: Seq<usize>| sorts(ks, ord)
}

proof fn lemma_sorts_prefix(ks: Seq<Seq<char>>, o1: Seq<usize>, o2: Seq<usize>, k: int)
    requires
        sorts(ks, o1),
        sorts(ks, o2),
        0 <= k <= o1.len(),
    ensures
        forall|q: int| 0 <= q < k ==> o1[q] == o2[q],
    decreases k,
{
    if k > 0 {
        let m = k - 1;
        lemma_sorts_prefix(ks, o1, o2, m);
        let i = o1[m];
        assert(has_index(o2, i as int));
        let q = choose|q: int| 0 <= q < o2.len() && o2[q] == i;
        if q != m {
            if q < m {
                assert(o1[q] == o2[q]);
                assert(false);
            }
            let j = o2[m];
            assert(has_index(o1, j as int));
            let r = choose|r: int| 0 <= r < o1.len() && o1[r] == j;
            if r < m {
                assert(o2[r] == o1[r]);
                assert(false);
            }
            assert(r != m);
            assert(before(ks, o1[m] as int, o1[r] as int));
            assert(before(ks, o2[m] as int, o2[q] as int));
            lemma_before_asym(ks, i as int, j as int);
        }
    }
}

/// A list of texts has exactly one stable sorting order.
pub proof fn lemma_sorts_unique(ks: Seq<Seq<char>>, o1: Seq<usize>, o2: Seq<usize>)
    requires
        sorts(ks, o1),
        sorts(ks, o2),
    ensures
        o1 == o2,
{
    lemma_sorts_prefix(ks, o1, o2, o1.len() as int);
    assert(o1 =~= o2);
}

/// The texts of `v`.
pub open spec fn texts(v: Seq<Vec<char>>) -> Seq<Seq<char>> {
    v.map_values(|x: Vec<char>| x@)
}

/// The stable sorting order of `ks`, by insertion.
pub fn sort_order(ks: &Vec<Vec<char>>) -> (ord: Vec<usize>)
    ensures
        sorts(texts(ks@), ord@),
        ord@ == sorted_order(texts(ks@)),
{
    let ghost t = texts(ks@);
    let mut ord: Vec<usize> = Vec::new();
    let mut i: usize = 0;
    while i < ks.len()
        invariant
            i <= ks.len(),
            t == texts(ks@),
            ord@.len() == i,
            forall|p: int| 0 <= p < ord@.len() ==> ord@[p] < i,
            forall|p: int, q: int| 0 <= p < q < ord@.len() ==> ord@[p] != ord@[q],
            forall|j: int| 0 <= j < i ==> #[trigger] has_index(ord@, j),
            forall|p: int, q: int|
                0 <= p < q < ord@.len() ==> before(t, ord@[p] as int, ord@[q] as int),
        decreases ks.len() - i,
    {
        let mut pos: usize = 0;
        while pos < ord.len() && !text_less(&ks[i], &ks[ord[pos]])
            invariant
                pos <= ord@.len(),
                i < ks.len(),
                t == texts(ks@),
                forall|p: int| 0 <= p < ord@.len() ==> ord@[p] < i,
                forall|p: int| 0 <= p < pos ==> !before(t, i as int, #[trigger] ord@[p] as int),
            decreases ord.len() - pos,
        {
            proof {
                let op = ord@[pos as int] as int;
                assert(t[i as int] == ks@[i as int]@);
                assert(t[op] == ks@[op]@);
            }
            pos = pos + 1;
        }
        let ghost old_ord = ord@;
        proof {
            if pos < ord.len() {
                let op = old_ord[pos as int] as int;
                assert(t[i as int] == ks@[i as int]@);
                assert(t[op] == ks@[op]@);
                assert(before(t, i as int, op));
            }
        }
        ord.insert(pos, i);
        proof {
            assert forall|p: int, q: int| 0 <= p < q < ord@.len() implies before(
                t,
                ord@[p] as int,
                ord@[q] as int,
            ) by {
                if q < pos {
                } else if q == pos {
                    let a = old_ord[p] as int;
                    assert(!before(t, i as int, a));
                    lemma_before_total(t, i as int, a);
                } else if p < pos {
                    let a = old_ord[p] as int;
                    let b = old_ord[q - 1] as int;
                    assert(before(t, a, b));
                } else if p == pos {
                    let b = old_ord[q - 1] as int;
                    if q - 1 > pos {
                        let c = old_ord[pos as int] as int;
                        assert(before(t, c, b));
                        lemma_before_trans(t, i as int, c, b);
                    }
                } else {
                    assert(before(t, old_ord[p - 1] as int, old_ord[q - 1] as int));
                }
            }
            assert forall|j: int| 0 <= j < i + 1 implies #[trigger] has_index(ord@, j) by {
                if j == i {
                    assert(ord@[pos as int] == j);
                } else {
                    assert(has_index(old_ord, j));
                    let p = choose|p: int| 0 <= p < old_ord.len() && old_ord[p] == j;
                    if p < pos {
                        assert(ord@[p] == j);
                    } else {
                        assert(ord@[p + 1] == j);
                    }
                }
            }
        }
        i = i + 1;
    }
    proof {
        assert(sorts(t, ord@));
        assert(exists|o: Seq<usize>| sorts(t, o));
        lemma_sorts_unique(t, ord@, sorted_order(t));
    }
    ord
}

/// Index `i` comes before index `j` when sorting by keys `ks` stably: by
/// key, and equal keys in the order they stand.
pub open spec fn key_before(ks: Seq<u32>, i: int, j: int) -> bool {
    ks[i] < ks[j] || (ks[i] == ks[j] && i < j)
}

/// `ord` lists every index of `ks` once, sorted stably by key.
pub open spec fn sorts_by_key(ks: Seq<u32>, ord: Seq<usize>) -> bool {
    &&& ord.len() == ks.len()
    &&& forall|p: int| 0 <= p < ord.len() ==> ord[p] < ks.len()
    &&& forall|p: int, q: int| 0 <= p < q < ord.len() ==> ord[p] != ord[q]
    &&& forall|i: int| 0 <= i < ks.len() ==> #[trigger] has_index(ord, i)
    &&& forall|p: int, q: int|
        0 <= p < q < ord.len() ==> key_before(ks, ord[p] as int, ord[q] as int)
}

/// The stable sorting order of `ks`.
pub open spec fn key_order(ks: Seq<u32>) -> Seq<usize> {
    choose|ord: Seq<usize>| sorts_by_key(ks, ord)
}

proof fn lemma_sorts_by_key_prefix(ks: Seq<u32>, o1: Seq<usize>, o2: Seq<usize>, k: int)
    requires
        sorts_by_key(ks, o1),
        sorts_by_key(ks, o2),
        0 <= k <= o1.len(),
    ensures
        forall|q: int| 0 <= q < k ==> o1[q] == o2[q],
    decreases k,
{
    if k > 0 {
        let m = k - 1;
        lemma_sorts_by_key_prefix(ks, o1, o2, m);
        let i = o1[m];
        assert(has_index(o2, i as int));
        let q = choose|q: int| 0 <= q < o2.len() && o2[q] == i;
        if q != m {
            if q < m {
                assert(o1[q] == o2[q]);
                assert(false);
            }
            let j = o2[m];
            assert(has_index(o1, j as int));
            let r = choose|r: int| 0 <= r < o1.len() && o1[r] == j;
            if r < m {
                assert(o2[r] == o1[r]);
                assert(false);
            }
            assert(r != m);
            assert(key_before(ks, o1[m] as int, o1[r] as int));
            assert(key_before(ks, o2[m] as int, o2[q] as int));
        }
    }
}

/// A list of keys has exactly one stable sorting order.
pub proof fn lemma_sorts_by_key_unique(ks: Seq<u32>, o1: Seq<usize>, o2: Seq<usize>)
    requires
        sorts_by_key(ks, o1),
        sorts_by_key(ks, o2),
    ensures
        o1 == o2,
{
    lemma_sorts_by_key_prefix(ks, o1, o2, o1.len() as int);
    assert(o1 =~= o2);
}

/// The stable sorting order of `ks`, by insertion.
pub fn sort_order_by_key(ks: &Vec<u32>) -> (ord: Vec<usize>)
    ensures
        sorts_by_key(ks@, ord@),
        ord@ == key_order(ks@),
{
    let ghost t = ks@;
    let mut ord: Vec<usize> = Vec::new();
    let mut i: usize = 0;
    while i < ks.len()
        invariant
            i <= ks.len(),
            t == ks@,
            ord@.len() == i,
            forall|p: int| 0 <= p < ord@.len() ==> ord@[p] < i,
            forall|p: int, q: int| 0 <= p < q < ord@.len() ==> ord@[p] != ord@[q],
            forall|j: int| 0 <= j < i ==> #[trigger] has_index(ord@, j),
            forall|p: int, q: int|
                0 <= p < q < ord@.len() ==> key_before(t, ord@[p] as int, ord@[q] as int),
        decreases ks.len() - i,
    {
        let mut pos: usize = 0;
        while pos < ord.len() && !(ks[i] < ks[ord[pos]])
            invariant
                pos <= ord@.len(),
                i < ks.len(),
                t == ks@,
                forall|p: int| 0 <= p < ord@.len() ==> ord@[p] < i,
                forall|p: int| 0 <= p < pos ==> !key_before(t, i as int, #[trigger] ord@[p] as int),
            decreases ord.len() - pos,
        {
            pos = pos + 1;
        }
        let ghost old_ord = ord@;
        ord.insert(pos, i);
        proof {
            assert forall|p: int, q: int| 0 <= p < q < ord@.len() implies key_before(
                t,
                ord@[p] as int,
                ord@[q] as int,
            ) by {
                if q < pos {
                } else if q == pos {
                    let a = old_ord[p] as int;
                    assert(!key_before(t, i as int, a));
                } else if p < pos {
                    assert(key_before(t, old_ord[p] as int, old_ord[q - 1] as int));
                } else if p == pos {
                    let b = old_ord[q - 1] as int;
                    if q - 1 > pos {
                        let c = old_ord[pos as int] as int;
                        assert(key_before(t, c, b));
                    }
                } else {
                    assert(key_before(t, old_ord[p - 1] as int, old_ord[q - 1] as int));
                }
            }
            assert forall|j: int| 0 <= j < i + 1 implies #[trigger] has_index(ord@, j) by {
                if j == i {
                    assert(ord@[pos as int] == j);
                } else {
                    assert(has_index(old_ord, j));
                    let p = choose|p: int| 0 <= p < old_ord.len() && old_ord[p] == j;
                    if p < pos {
                        assert(ord@[p] == j);
                    } else {
                        assert(ord@[p + 1] == j);
                    }
                }
            }
        }
        i = i + 1;
    }
    proof {
        assert(sorts_by_key(t, ord@));
        assert(exists|o: Seq<usize>| sorts_by_key(t, o));
        lemma_sorts_by_key_unique(t, ord@, key_order(t));
    }
    ord
}

} // verus!
