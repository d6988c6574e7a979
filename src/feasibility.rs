use vstd::prelude::*;
use crate::decode::{selection_view, well_shaped};
use crate::laws::{satisfies, satisfies_all, term_sum};
use crate::model::{ConstraintSpec, LinearConstraint, PairingModel};

verus! {

/// Every term of `c` names a variable of an `n` by `n` model and has a
/// coefficient in `-1..=1`.
pub open spec fn terms_fit(c: ConstraintSpec, n: int) -> bool {
    forall|k: int| 0 <= k < c.terms.len() ==> {
        &&& (#[trigger] c.terms[k]).sender < n
        &&& c.terms[k].receiver < n
        &&& -1 <= c.terms[k].coef <= 1
    }
}

pub open spec fn model_fits(cs: Seq<ConstraintSpec>, n: int) -> bool {
    forall|k: int| 0 <= k < cs.len() ==> terms_fit(#[trigger] cs[k], n)
}

fn constraint_holds(c: &LinearConstraint, n: usize, values: &Vec<Vec<bool>>) -> (r: bool)
    requires
        well_shaped(n as int, selection_view(values@)),
    ensures
        r == (terms_fit(c@, n as int) && satisfies(c@, selection_view(values@))),
{
    let ghost v = selection_view(values@);
    let ghost terms = c.terms@;
    let mut acc: i128 = 0;
    let mut k: usize = 0;
    while k < c.terms.len()
        invariant
            k <= terms.len(),
            terms == c.terms@,
            v == selection_view(values@),
            well_shaped(n as int, v),
            forall|q: int| 0 <= q < k ==> {
                &&& (#[trigger] terms[q]).sender < n
                &&& terms[q].receiver < n
                &&& -1 <= terms[q].coef <= 1
            },
            acc as int == term_sum(terms.take(k as int), v),
            -(k as int) <= acc <= k as int,
        decreases terms.len() - k,
    {
        let t = c.terms[k];
        if t.sender >= n || t.receiver >= n || t.coef < -1 || t.coef > 1 {
            assert(!terms_fit(c@, n as int)) by {
                assert(c@.terms[k as int] == t);
            }
            return false;
        }
        assert(v[t.sender as int] == values@[t.sender as int]@);
        let x: i128 = if values[t.sender][t.receiver] { 1 } else { 0 };
        assert(terms.take(k + 1).drop_last() =~= terms.take(k as int));
        acc = acc + (t.coef as i128) * x;
        k = k + 1;
    }
    assert(terms.take(k as int) =~= terms);
    c.lower as i128 <= acc && acc <= c.upper as i128
}

/// Whether `values` is an `n` by `n` selection, with `n` the model's
/// participant count, under which every constraint of `model` holds (and
/// every term of the model names one of its variables with a coefficient in
/// `-1..=1`). Lets a caller refuse a backend answer that breaks the model.
pub fn selection_satisfies(model: &PairingModel, values: &Vec<Vec<bool>>) -> (r: bool)
    ensures
        r == (well_shaped(model.participants as int, selection_view(values@))
            && model_fits(model.constraints_view(), model.participants as int)
            && satisfies_all(model.constraints_view(), selection_view(values@))),
{
    let n = model.participants;
    let ghost v = selection_view(values@);
    let ghost cs = model.constraints_view();
    if values.len() != n {
        return false;
    }
    let mut k: usize = 0;
    while k < n
        invariant
            k <= n,
            values@.len() == n,
            v == selection_view(values@),
            forall|i: int| 0 <= i < k ==> #[trigger] v[i].len() == n,
        decreases n - k,
    {
        if values[k].len() != n {
            assert(v[k as int] == values@[k as int]@);
            return false;
        }
        k = k + 1;
    }
    assert(well_shaped(n as int, v));
    let mut k: usize = 0;
    while k < model.constraints.len()
        invariant
            k <= model.constraints@.len(),
            n == model.participants,
            cs == model.constraints_view(),
            cs.len() == model.constraints@.len(),
            v == selection_view(values@),
            well_shaped(n as int, v),
            forall|q: int| 0 <= q < k ==> terms_fit(#[trigger] cs[q], n as int) && satisfies(cs[q], v),
        decreases model.constraints@.len() - k,
    {
        assert(cs[k as int] == model.constraints@[k as int]@);
        if !constraint_holds(&model.constraints[k], n, values) {
            assert(!(model_fits(cs, n as int) && satisfies_all(cs, v))) by {
                if model_fits(cs, n as int) {
                    assert(terms_fit(cs[k as int], n as int));
                    assert(cs.contains(cs[k as int]));
                }
            }
            return false;
        }
        k = k + 1;
    }
    assert forall|c: ConstraintSpec| cs.contains(c) implies satisfies(c, v) by {
        let w = choose|w: int| 0 <= w < cs.len() && cs[w] == c;
        assert(terms_fit(cs[w], n as int) && satisfies(cs[w], v));
    }
    true
}

} // verus!
