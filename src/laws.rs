use vstd::prelude::*;
use crate::decode::{decoded, decoded_rows, row_pairs, well_shaped};
use crate::index::{receives_of, sends_of};
use crate::render::pixel;
use crate::model::{
    balance_spec, capacity_spec, col_terms, model_constraints, no_mutual_row, no_mutual_rows,
    no_mutual_spec, no_self_spec, row_terms, ConstraintSpec, Term,
};

verus! {

/// The value a selection gives the variable of term `t`: 1 or 0.
pub open spec fn var_value(v: Seq<Seq<bool>>, t: Term) -> int {
    if v[t.sender as int][t.receiver as int] { 1 } else { 0 }
}

/// The left-hand side of a constraint under selection `v`.
pub open spec fn term_sum(terms: Seq<Term>, v: Seq<Seq<bool>>) -> int
    decreases terms.len(),
{
    if terms.len() == 0 {
        0
    } else {
        term_sum(terms.drop_last(), v) + terms.last().coef * var_value(v, terms.last())
    }
}

pub open spec fn satisfies(c: ConstraintSpec, v: Seq<Seq<bool>>) -> bool {
    c.lower <= term_sum(c.terms, v) <= c.upper
}

/// Selection `v` meets every constraint of `cs`.
pub open spec fn satisfies_all(cs: Seq<ConstraintSpec>, v: Seq<Seq<bool>>) -> bool {
    forall|c: ConstraintSpec| cs.contains(c) ==> satisfies(c, v)
}

/// Number of `j < m` with `v[i][j]`.
pub open spec fn row_sum(v: Seq<Seq<bool>>, i: int, m: int) -> int
    decreases m,
{
    if m <= 0 { 0 } else { row_sum(v, i, m - 1) + if v[i][m - 1] { 1int } else { 0 } }
}

/// Number of `r < m` with `v[r][i]`.
pub open spec fn col_sum(v: Seq<Seq<bool>>, i: int, m: int) -> int
    decreases m,
{
    if m <= 0 { 0 } else { col_sum(v, i, m - 1) + if v[m - 1][i] { 1int } else { 0 } }
}

proof fn lemma_concat_contains<T>(s: Seq<T>, t: Seq<T>, x: T)
    ensures
        (s + t).contains(x) <==> s.contains(x) || t.contains(x),
{
    if (s + t).contains(x) {
        let w = choose|w: int| 0 <= w < (s + t).len() && (s + t)[w] == x;
        if w < s.len() {
            assert(s[w] == x);
        } else {
            assert(t[w - s.len()] == x);
        }
    }
    if s.contains(x) {
        let w = choose|w: int| 0 <= w < s.len() && s[w] == x;
        assert((s + t)[w] == x);
    }
    if t.contains(x) {
        let w = choose|w: int| 0 <= w < t.len() && t[w] == x;
        assert((s + t)[s.len() + w] == x);
    }
}

proof fn lemma_row_pairs_contains(v: Seq<Seq<bool>>, i: int, m: int, a: usize, b: usize)
    requires
        0 <= i <= usize::MAX,
        m <= usize::MAX + 1,
    ensures
        row_pairs(v, i, m).contains((a, b)) <==> (a == i && b < m && i != b && v[i][b as int]),
    decreases m,
{
    if m > 0 {
        lemma_row_pairs_contains(v, i, m - 1, a, b);
        let tail = if v[i][m - 1] && i != m - 1 { seq![(i as usize, (m - 1) as usize)] } else { Seq::empty() };
        lemma_concat_contains(row_pairs(v, i, m - 1), tail, (a, b));
        if tail.contains((a, b)) {
            assert(tail[0] == (a, b));
        }
        if a == i && b == m - 1 && i != b && v[i][b as int] {
            assert(tail[0] == (a, b));
        }
    }
}

proof fn lemma_decoded_rows_contains(v: Seq<Seq<bool>>, n: int, rows: int, a: usize, b: usize)
    requires
        0 <= n <= usize::MAX,
        rows <= usize::MAX + 1,
    ensures
        decoded_rows(v, n, rows).contains((a, b)) <==> (a < rows && b < n && a != b && v[a as int][b as int]),
    decreases rows,
{
    if rows > 0 {
        lemma_decoded_rows_contains(v, n, rows - 1, a, b);
        lemma_concat_contains(decoded_rows(v, n, rows - 1), row_pairs(v, rows - 1, n), (a, b));
        lemma_row_pairs_contains(v, rows - 1, n, a, b);
    }
}

/// A pairing is decoded exactly when it joins two different participants
/// and its variable is selected.
pub proof fn lemma_decoded_contains(v: Seq<Seq<bool>>, n: int, a: usize, b: usize)
    requires
        0 <= n <= usize::MAX,
    ensures
        decoded(v, n).contains((a, b)) <==> (a < n && b < n && a != b && v[a as int][b as int]),
{
    lemma_decoded_rows_contains(v, n, n, a, b);
}

proof fn lemma_mutual_in_rows(n: int, rows: int, i: int, j: int)
    requires
        0 <= i < j < n,
        i < rows,
    ensures
        no_mutual_rows(n, rows).contains(no_mutual_spec(i, j)),
    decreases rows,
{
    if rows - 1 == i {
        let row = no_mutual_row(n, i);
        assert(row[j - i - 1] == no_mutual_spec(i, j));
        lemma_concat_contains(no_mutual_rows(n, rows - 1), row, no_mutual_spec(i, j));
    } else {
        lemma_mutual_in_rows(n, rows - 1, i, j);
        lemma_concat_contains(no_mutual_rows(n, rows - 1), no_mutual_row(n, rows - 1), no_mutual_spec(i, j));
    }
}

/// Under any selection that meets the model's constraints, no two
/// participants exchange cards both ways.
pub proof fn law_no_mutual_exchange(requests: Seq<i32>, v: Seq<Seq<bool>>, i: usize, j: usize)
    requires
        requests.len() <= usize::MAX,
        well_shaped(requests.len() as int, v),
        satisfies_all(model_constraints(requests), v),
    ensures
        !(decoded(v, requests.len() as int).contains((i, j)) && decoded(v, requests.len() as int).contains((j, i))),
{
    let n = requests.len() as int;
    lemma_decoded_contains(v, n, i, j);
    lemma_decoded_contains(v, n, j, i);
    if i < n && j < n && i != j {
        let (a, b) = if i < j { (i as int, j as int) } else { (j as int, i as int) };
        lemma_mutual_in_rows(n, n, a, b);
        let cs = model_constraints(requests);
        let c = no_mutual_spec(a, b);
        let s1 = crate::model::no_self_family(n);
        let s2 = no_mutual_rows(n, n);
        lemma_concat_contains(s1, s2, c);
        lemma_concat_contains(s1 + s2, crate::model::capacity_family(n, requests), c);
        lemma_concat_contains(s1 + s2 + crate::model::capacity_family(n, requests), crate::model::balance_family(n), c);
        assert(cs.contains(c));
        assert(satisfies(c, v));
        assert(c.terms.drop_last().drop_last() =~= Seq::<Term>::empty());
        assert(c.terms.drop_last() =~= seq![c.terms[0]]);
        assert(term_sum(c.terms.drop_last().drop_last(), v) == 0);
        assert(c.terms.drop_last().last() == c.terms[0]);
        assert(term_sum(c.terms.drop_last(), v) == var_value(v, c.terms[0]));
        assert(term_sum(c.terms, v) == var_value(v, c.terms[0]) + var_value(v, c.terms[1]));
        assert(c.terms[0].sender as int == a && c.terms[0].receiver as int == b);
        assert(c.terms[1].sender as int == b && c.terms[1].receiver as int == a);
    }
}

/// Number of `j < m`, `j != i`, with `v[i][j]`.
pub open spec fn pair_row_count(v: Seq<Seq<bool>>, i: int, m: int) -> int
    decreases m,
{
    if m <= 0 { 0 } else { pair_row_count(v, i, m - 1) + if v[i][m - 1] && i != m - 1 { 1int } else { 0 } }
}

/// Number of `r < m`, `r != i`, with `v[r][i]`.
pub open spec fn pair_col_count(v: Seq<Seq<bool>>, i: int, m: int) -> int
    decreases m,
{
    if m <= 0 { 0 } else { pair_col_count(v, i, m - 1) + if v[m - 1][i] && i != m - 1 { 1int } else { 0 } }
}

proof fn lemma_sends_concat(s: Seq<(usize, usize)>, t: Seq<(usize, usize)>, i: int)
    ensures
        sends_of(s + t, i) == sends_of(s, i) + sends_of(t, i),
        receives_of(s + t, i) == receives_of(s, i) + receives_of(t, i),
    decreases t.len(),
{
    if t.len() == 0 {
        assert(s + t =~= s);
        assert(sends_of(s, i) + sends_of(t, i) =~= sends_of(s, i));
        assert(receives_of(s, i) + receives_of(t, i) =~= receives_of(s, i));
    } else {
        lemma_sends_concat(s, t.drop_last(), i);
        assert((s + t).drop_last() =~= s + t.drop_last());
        assert((s + t).last() == t.last());
        assert(sends_of(s + t, i) =~= sends_of(s, i) + sends_of(t, i));
        assert(receives_of(s + t, i) =~= receives_of(s, i) + receives_of(t, i));
    }
}

proof fn lemma_row_pairs_counts(v: Seq<Seq<bool>>, r: int, m: int, i: int)
    requires
        0 <= r <= usize::MAX,
        m <= usize::MAX + 1,
        0 <= i <= usize::MAX,
    ensures
        sends_of(row_pairs(v, r, m), i).len() == if r == i { pair_row_count(v, i, m) } else { 0 },
        receives_of(row_pairs(v, r, m), i).len() == if r != i && i < m && v[r][i] { 1int } else { 0 },
    decreases m,
{
    if m > 0 {
        lemma_row_pairs_counts(v, r, m - 1, i);
        let tail = if v[r][m - 1] && r != m - 1 { seq![(r as usize, (m - 1) as usize)] } else { Seq::empty() };
        lemma_sends_concat(row_pairs(v, r, m - 1), tail, i);
        if tail.len() == 1 {
            assert(tail.drop_last() =~= Seq::<(usize, usize)>::empty());
            assert(sends_of(tail.drop_last(), i).len() == 0);
            assert(receives_of(tail.drop_last(), i).len() == 0);
            assert(tail.last().0 as int == r && tail.last().1 as int == m - 1);
            assert(sends_of(tail, i).len() == if r == i { 1int } else { 0 });
            assert(receives_of(tail, i).len() == if m - 1 == i { 1int } else { 0 });
        } else {
            assert(sends_of(tail, i).len() == 0);
            assert(receives_of(tail, i).len() == 0);
        }
    }
}

proof fn lemma_decoded_rows_counts(v: Seq<Seq<bool>>, n: int, rows: int, i: int)
    requires
        0 <= n <= usize::MAX,
        rows <= n,
        0 <= i < n,
    ensures
        sends_of(decoded_rows(v, n, rows), i).len() == if i < rows { pair_row_count(v, i, n) } else { 0 },
        receives_of(decoded_rows(v, n, rows), i).len() == pair_col_count(v, i, rows),
    decreases rows,
{
    if rows > 0 {
        lemma_decoded_rows_counts(v, n, rows - 1, i);
        lemma_sends_concat(decoded_rows(v, n, rows - 1), row_pairs(v, rows - 1, n), i);
        lemma_row_pairs_counts(v, rows - 1, n, i);
    }
}

proof fn lemma_pair_counts_sums(v: Seq<Seq<bool>>, i: int, m: int)
    requires
        !v[i][i],
    ensures
        pair_row_count(v, i, m) == row_sum(v, i, m),
        pair_col_count(v, i, m) == col_sum(v, i, m),
    decreases m,
{
    if m > 0 {
        lemma_pair_counts_sums(v, i, m - 1);
    }
}

proof fn lemma_term_sum_concat(s: Seq<Term>, t: Seq<Term>, v: Seq<Seq<bool>>)
    ensures
        term_sum(s + t, v) == term_sum(s, v) + term_sum(t, v),
    decreases t.len(),
{
    if t.len() == 0 {
        assert(s + t =~= s);
    } else {
        lemma_term_sum_concat(s, t.drop_last(), v);
        assert((s + t).drop_last() =~= s + t.drop_last());
        assert((s + t).last() == t.last());
    }
}

proof fn lemma_line_sums(v: Seq<Seq<bool>>, i: int, m: int, c: int)
    requires
        0 <= i <= usize::MAX,
        0 <= m <= usize::MAX + 1,
        c == 1 || c == -1,
    ensures
        term_sum(row_terms(m, i, c), v) == c * row_sum(v, i, m),
        term_sum(col_terms(m, i, c), v) == c * col_sum(v, i, m),
    decreases m,
{
    if m > 0 {
        lemma_line_sums(v, i, m - 1, c);
        assert(row_terms(m, i, c).drop_last() =~= row_terms(m - 1, i, c));
        assert(col_terms(m, i, c).drop_last() =~= col_terms(m - 1, i, c));
        let a = row_sum(v, i, m - 1);
        let b = col_sum(v, i, m - 1);
        let x: int = if v[i][m - 1] { 1 } else { 0 };
        let y: int = if v[m - 1][i] { 1 } else { 0 };
        assert(c * a + c * x == c * (a + x)) by (nonlinear_arith);
        assert(c * b + c * y == c * (b + y)) by (nonlinear_arith);
    } else {
        assert(row_terms(m, i, c) =~= Seq::<Term>::empty());
        assert(col_terms(m, i, c) =~= Seq::<Term>::empty());
    }
}

/// The constraint `c` of family `k` of the model for `requests` holds under `v`.
proof fn lemma_family_member(requests: Seq<i32>, v: Seq<Seq<bool>>, c: ConstraintSpec)
    requires
        satisfies_all(model_constraints(requests), v),
        crate::model::no_self_family(requests.len() as int).contains(c)
            || crate::model::capacity_family(requests.len() as int, requests).contains(c)
            || crate::model::balance_family(requests.len() as int).contains(c),
    ensures
        satisfies(c, v),
{
    let n = requests.len() as int;
    let s1 = crate::model::no_self_family(n);
    let s2 = no_mutual_rows(n, n);
    let s3 = crate::model::capacity_family(n, requests);
    let s4 = crate::model::balance_family(n);
    lemma_concat_contains(s1, s2, c);
    lemma_concat_contains(s1 + s2, s3, c);
    lemma_concat_contains(s1 + s2 + s3, s4, c);
    assert(model_constraints(requests).contains(c));
}

proof fn lemma_no_self_selected(requests: Seq<i32>, v: Seq<Seq<bool>>, i: int)
    requires
        requests.len() <= usize::MAX,
        0 <= i < requests.len(),
        satisfies_all(model_constraints(requests), v),
    ensures
        !v[i][i],
{
    let c = no_self_spec(i);
    assert(crate::model::no_self_family(requests.len() as int)[i] == c);
    lemma_family_member(requests, v, c);
    assert(c.terms.drop_last() =~= Seq::<Term>::empty());
    assert(term_sum(c.terms.drop_last(), v) == 0);
    assert(c.terms.len() == 1);
    assert(c.terms[0] == crate::model::term(i, i, 1));
    assert(c.terms.last().sender as int == i && c.terms.last().receiver as int == i);
    assert(term_sum(c.terms, v) == var_value(v, c.terms.last()));
}

/// Under any selection that meets the model's constraints, nobody sends more
/// cards than they asked to.
pub proof fn law_sender_capacity(requests: Seq<i32>, v: Seq<Seq<bool>>, i: usize)
    requires
        requests.len() <= usize::MAX,
        well_shaped(requests.len() as int, v),
        satisfies_all(model_constraints(requests), v),
        i < requests.len(),
    ensures
        sends_of(decoded(v, requests.len() as int), i as int).len() <= requests[i as int],
{
    let n = requests.len() as int;
    lemma_no_self_selected(requests, v, i as int);
    lemma_decoded_rows_counts(v, n, n, i as int);
    lemma_pair_counts_sums(v, i as int, n);
    let c = capacity_spec(n, i as int, requests[i as int] as int);
    assert(crate::model::capacity_family(n, requests)[i as int] == c);
    lemma_family_member(requests, v, c);
    lemma_line_sums(v, i as int, n, 1);
}

/// Under any selection that meets the model's constraints, everybody sends
/// exactly as many cards as they receive.
pub proof fn law_flow_balance(requests: Seq<i32>, v: Seq<Seq<bool>>, i: usize)
    requires
        requests.len() <= usize::MAX,
        well_shaped(requests.len() as int, v),
        satisfies_all(model_constraints(requests), v),
        i < requests.len(),
    ensures
        sends_of(decoded(v, requests.len() as int), i as int).len()
            == receives_of(decoded(v, requests.len() as int), i as int).len(),
{
    let n = requests.len() as int;
    lemma_no_self_selected(requests, v, i as int);
    lemma_decoded_rows_counts(v, n, n, i as int);
    lemma_pair_counts_sums(v, i as int, n);
    let c = balance_spec(n, i as int);
    assert(crate::model::balance_family(n)[i as int] == c);
    lemma_family_member(requests, v, c);
    lemma_line_sums(v, i as int, n, 1);
    lemma_line_sums(v, i as int, n, -1);
    lemma_term_sum_concat(row_terms(n, i as int, 1), col_terms(n, i as int, -1), v);
}

/// For every selection, no decoded pairing has a participant send to themself.
pub proof fn law_no_self_pairing(v: Seq<Seq<bool>>, n: int, a: usize)
    requires
        0 <= n <= usize::MAX,
    ensures
        !decoded(v, n).contains((a, a)),
{
    lemma_decoded_contains(v, n, a, a);
}

/// Decoding depends on the selection alone: the same selection always
/// decodes to the same pairings in the same order.
pub proof fn law_decode_deterministic(v: Seq<Seq<bool>>, w: Seq<Seq<bool>>, n: int)
    requires
        v == w,
    ensures
        decoded(v, n) == decoded(w, n),
{
}

/// Rendering depends on the pairing set and the participant count alone:
/// equal inputs give the same colour at every pixel.
pub proof fn law_render_deterministic(p: Seq<(usize, usize)>, q: Seq<(usize, usize)>, n: int, x: int, y: int)
    requires
        p == q,
    ensures
        pixel(p, n, x, y) == pixel(q, n, x, y),
{
}

} // verus!
