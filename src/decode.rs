use vstd::prelude::*;
use crate::model::PairingError;

verus! {

/// The backend's answer as a dense matrix: `v[i][j]` holds when the variable
/// `x[i][j]` was set (its value reached the decoding threshold).
pub open spec fn selection_view(values: Seq<Vec<bool>>) -> Seq<Seq<bool>> {
    values.map_values(|r: Vec<bool>| r@)
}

/// `v` has exactly `n` rows of `n` entries each.
pub open spec fn well_shaped(n: int, v: Seq<Seq<bool>>) -> bool {
    v.len() == n && forall|i: int| 0 <= i < n ==> #[trigger] v[i].len() == n
}

/// The pairings `(i, j)` of row `i` with `j < m`, in increasing `j`.
pub open spec fn row_pairs(v: Seq<Seq<bool>>, i: int, m: int) -> Seq<(usize, usize)>
    decreases m,
{
    if m <= 0 {
        Seq::empty()
    } else {
        row_pairs(v, i, m - 1) + if v[i][m - 1] && i != m - 1 {
            seq![(i as usize, (m - 1) as usize)]
        } else {
            Seq::empty()
        }
    }
}

/// The pairings of rows `0..rows`, by increasing sender, then receiver.
pub open spec fn decoded_rows(v: Seq<Seq<bool>>, n: int, rows: int) -> Seq<(usize, usize)>
    decreases rows,
{
    if rows <= 0 {
        Seq::empty()
    } else {
        decoded_rows(v, n, rows - 1) + row_pairs(v, rows - 1, n)
    }
}

/// The pairing set decoded from an `n` by `n` selection.
pub open spec fn decoded(v: Seq<Seq<bool>>, n: int) -> Seq<(usize, usize)> {
    decoded_rows(v, n, n)
}

/// Turns the backend's selection into the pairing set: `(i, j)` is in it
/// exactly when `i != j` and `values[i][j]` holds, ordered by increasing
/// sender, then increasing receiver. Fails with `MalformedInput` exactly
/// when `values` is not `n` by `n`.
pub fn decode_solution(n: usize, values: &Vec<Vec<bool>>) -> (r: Result<Vec<(usize, usize)>, PairingError>)
    ensures
        !well_shaped(n as int, selection_view(values@)) <==> r is Err,
        r is Err ==> r == Err::<Vec<(usize, usize)>, PairingError>(PairingError::MalformedInput),
        r matches Ok(p) ==> {
            &&& p@ == decoded(selection_view(values@), n as int)
            &&& forall|k: int| 0 <= k < p@.len() ==> #[trigger] p@[k].0 != p@[k].1
            &&& forall|k: int| 0 <= k < p@.len() ==> #[trigger] p@[k].0 < n && p@[k].1 < n
            &&& forall|i: usize, j: usize| #[trigger] p@.contains((i, j)) <==>
                (i < n && j < n && i != j && values@[i as int]@[j as int])
        },
{
    let ghost v = selection_view(values@);
    if values.len() != n {
        return Err(PairingError::MalformedInput);
    }
    let mut k: usize = 0;
    while k < n
        invariant
            k <= n,
            values@.len() == n,
            v == selection_view(values@),
            forall|i: int| 0 <= i < k ==> #[trigger] v[i].len() == n,
        decreases n - k,
    {
        if values[k].len() != n {
            assert(v[k as int] == values@[k as int]@);
            return Err(PairingError::MalformedInput);
        }
        k = k + 1;
    }
    let mut out: Vec<(usize, usize)> = Vec::new();
    let mut i: usize = 0;
    while i < n
        invariant
            i <= n,
            values@.len() == n,
            v == selection_view(values@),
            well_shaped(n as int, v),
            out@ == decoded_rows(v, n as int, i as int),
            forall|k: int| 0 <= k < out@.len() ==> {
                &&& (#[trigger] out@[k]).0 < i && out@[k].1 < n
                &&& out@[k].0 != out@[k].1
                &&& v[out@[k].0 as int][out@[k].1 as int]
            },
            forall|a: usize, b: usize| a < i && b < n && a != b && v[a as int][b as int] ==> #[trigger] out@.contains((a, b)),
        decreases n - i,
    {
        let row = &values[i];
        assert(row@ == v[i as int]);
        let mut j: usize = 0;
        while j < n
            invariant
                i < n,
                j <= n,
                values@.len() == n,
                v == selection_view(values@),
                well_shaped(n as int, v),
                row@ == v[i as int],
                out@ == decoded_rows(v, n as int, i as int) + row_pairs(v, i as int, j as int),
                forall|k: int| 0 <= k < out@.len() ==> {
                    &&& (#[trigger] out@[k]).0 <= i && out@[k].1 < n
                    &&& out@[k].0 != out@[k].1
                    &&& v[out@[k].0 as int][out@[k].1 as int]
                },
                forall|a: usize, b: usize| (a < i && b < n || a == i && b < j) && a != b && v[a as int][b as int] ==> #[trigger] out@.contains((a, b)),
            decreases n - j,
        {
            let ghost before = out@;
            if row[j] && i != j {
                out.push((i, j));
                assert(out@[before.len() as int] == (i, j));
                assert forall|a: usize, b: usize| before.contains((a, b)) implies #[trigger] out@.contains((a, b)) by {
                    let w = choose|w: int| 0 <= w < before.len() && before[w] == (a, b);
                    assert(out@[w] == (a, b));
                }
            }
            j = j + 1;
            assert(out@ =~= decoded_rows(v, n as int, i as int) + row_pairs(v, i as int, j as int));
        }
        i = i + 1;
        assert(out@ =~= decoded_rows(v, n as int, i as int));
    }
    let ghost p = out@;
    assert forall|a: usize, b: usize| #[trigger] p.contains((a, b)) implies (a < n && b < n && a != b && values@[a as int]@[b as int]) by {
        let w = choose|w: int| 0 <= w < p.len() && p[w] == (a, b);
        assert(v[a as int] == values@[a as int]@);
    }
    assert forall|a: usize, b: usize| a < n && b < n && a != b && values@[a as int]@[b as int] implies #[trigger] p.contains((a, b)) by {
        assert(v[a as int] == values@[a as int]@);
    }
    Ok(out)
}

} // verus!
