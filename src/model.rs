use vstd::prelude::*;

verus! {

/// Errors surfaced by the pairing pipeline.
#[derive(Debug, Clone, PartialEq, Eq)]
pub enum PairingError {
    /// A negative request count, or an assignment whose shape is not N by N.
    MalformedInput,
    /// The backend found no feasible assignment.
    Infeasible,
    /// The backend failed; its diagnostic message.
    BackendError(String),
}

/// The four families of linear constraints of the pairing model.
#[derive(Debug, Clone, Copy, PartialEq, Eq, Structural)]
pub enum ConstraintKind {
    NoSelfExchange,
    NoMutualExchange,
    SenderCapacity,
    FlowBalance,
}

/// One term `coef * x[sender][receiver]` of a linear constraint.
#[derive(Debug, Clone, Copy, PartialEq, Eq, Structural)]
pub struct Term {
    pub sender: usize,
    pub receiver: usize,
    pub coef: i64,
}

/// `lower <= sum of terms <= upper`.
#[derive(Debug, Clone)]
pub struct LinearConstraint {
    pub kind: ConstraintKind,
    pub terms: Vec<Term>,
    pub lower: i64,
    pub upper: i64,
}

/// Mathematical form of a [`LinearConstraint`].
pub ghost struct ConstraintSpec {
    pub kind: ConstraintKind,
    pub terms: Seq<Term>,
    pub lower: int,
    pub upper: int,
}

impl View for LinearConstraint {
    type V = ConstraintSpec;

    open spec fn view(&self) -> ConstraintSpec {
        ConstraintSpec { kind: self.kind, terms: self.terms@, lower: self.lower as int, upper: self.upper as int }
    }
}

/// The whole model: `participants * participants` binary variables
/// `x[i][j]` (participant `i` sends a card to `j`), each bounded to `[0, 1]`
/// and weighted 1 in a maximised objective, together with the constraints.
#[derive(Debug, Clone)]
pub struct PairingModel {
    pub participants: usize,
    pub constraints: Vec<LinearConstraint>,
}

pub open spec fn term(i: int, j: int, coef: int) -> Term {
    Term { sender: i as usize, receiver: j as usize, coef: coef as i64 }
}

/// `x[i][i] == 0`.
pub open spec fn no_self_spec(i: int) -> ConstraintSpec {
    ConstraintSpec { kind: ConstraintKind::NoSelfExchange, terms: seq![term(i, i, 1)], lower: 0, upper: 0 }
}

/// `x[i][j] + x[j][i] <= 1`.
pub open spec fn no_mutual_spec(i: int, j: int) -> ConstraintSpec {
    ConstraintSpec {
        kind: ConstraintKind::NoMutualExchange,
        terms: seq![term(i, j, 1), term(j, i, 1)],
        lower: 0,
        upper: 1,
    }
}

/// Everything `i` sends: `x[i][0] + ... + x[i][n-1]`, each with coefficient `coef`.
pub open spec fn row_terms(n: int, i: int, coef: int) -> Seq<Term> {
    Seq::new(n as nat, |j: int| term(i, j, coef))
}

/// Everything `i` receives: `x[0][i] + ... + x[n-1][i]`, each with coefficient `coef`.
pub open spec fn col_terms(n: int, i: int, coef: int) -> Seq<Term> {
    Seq::new(n as nat, |j: int| term(j, i, coef))
}

/// `0 <= sum_j x[i][j] <= cap`.
pub open spec fn capacity_spec(n: int, i: int, cap: int) -> ConstraintSpec {
    ConstraintSpec { kind: ConstraintKind::SenderCapacity, terms: row_terms(n, i, 1), lower: 0, upper: cap }
}

/// `sum_j x[i][j] - sum_j x[j][i] == 0`.
pub open spec fn balance_spec(n: int, i: int) -> ConstraintSpec {
    ConstraintSpec {
        kind: ConstraintKind::FlowBalance,
        terms: row_terms(n, i, 1) + col_terms(n, i, -1),
        lower: 0,
        upper: 0,
    }
}

pub open spec fn no_self_family(n: int) -> Seq<ConstraintSpec> {
    Seq::new(n as nat, |i: int| no_self_spec(i))
}

/// The mutual-exchange constraints of row `i`: one per `j` in `i+1..n`.
pub open spec fn no_mutual_row(n: int, i: int) -> Seq<ConstraintSpec> {
    Seq::new((n - i - 1) as nat, |d: int| no_mutual_spec(i, i + 1 + d))
}

/// The mutual-exchange constraints of rows `0..rows`, row by row.
pub open spec fn no_mutual_rows(n: int, rows: int) -> Seq<ConstraintSpec>
    decreases rows,
{
    if rows <= 0 {
        Seq::empty()
    } else {
        no_mutual_rows(n, rows - 1) + no_mutual_row(n, rows - 1)
    }
}

pub open spec fn capacity_family(n: int, requests: Seq<i32>) -> Seq<ConstraintSpec> {
    Seq::new(n as nat, |i: int| capacity_spec(n, i, requests[i] as int))
}

pub open spec fn balance_family(n: int) -> Seq<ConstraintSpec> {
    Seq::new(n as nat, |i: int| balance_spec(n, i))
}

/// The constraints of the model for `requests`, family after family.
pub open spec fn model_constraints(requests: Seq<i32>) -> Seq<ConstraintSpec> {
    let n = requests.len() as int;
    no_self_family(n) + no_mutual_rows(n, n) + capacity_family(n, requests) + balance_family(n)
}

pub open spec fn has_negative(requests: Seq<i32>) -> bool {
    exists|i: int| 0 <= i < requests.len() && requests[i] < 0
}

impl PairingModel {
    pub open spec fn constraints_view(&self) -> Seq<ConstraintSpec> {
        views(self.constraints@)
    }
}

pub open spec fn views(cons: Seq<LinearConstraint>) -> Seq<ConstraintSpec> {
    cons.map_values(|c: LinearConstraint| c@)
}

fn push_constraint(cons: &mut Vec<LinearConstraint>, c: LinearConstraint)
    ensures
        views(final(cons)@) == views(old(cons)@).push(c@),
{
    let ghost c_view = c@;
    cons.push(c);
    assert(views(cons@) =~= views(old(cons)@).push(c_view));
}

fn row_vec(n: usize, i: usize, coef: i64) -> (r: Vec<Term>)
    ensures
        r@ == row_terms(n as int, i as int, coef as int),
{
    let mut r: Vec<Term> = Vec::new();
    let mut j: usize = 0;
    while j < n
        invariant
            j <= n,
            r@ == row_terms(j as int, i as int, coef as int),
        decreases n - j,
    {
        r.push(Term { sender: i, receiver: j, coef });
        j = j + 1;
        assert(r@ =~= row_terms(j as int, i as int, coef as int));
    }
    r
}

fn append_col_terms(n: usize, i: usize, coef: i64, r: &mut Vec<Term>)
    ensures
        final(r)@ == old(r)@ + col_terms(n as int, i as int, coef as int),
{
    let ghost start = r@;
    let mut j: usize = 0;
    while j < n
        invariant
            j <= n,
            r@ == start + col_terms(j as int, i as int, coef as int),
        decreases n - j,
    {
        r.push(Term { sender: j, receiver: i, coef });
        j = j + 1;
        assert(r@ =~= start + col_terms(j as int, i as int, coef as int));
    }
}

/// Builds the model for `requests`: participant `i` asks to send
/// `requests[i]` cards. Fails with `MalformedInput` exactly when a count is
/// negative; otherwise its constraints are, in this order, the self-exchange,
/// mutual-exchange, sender-capacity and flow-balance families.
pub fn build_pairing_model(requests: &Vec<i32>) -> (r: Result<PairingModel, PairingError>)
    ensures
        has_negative(requests@) <==> r is Err,
        r is Err ==> r == Err::<PairingModel, PairingError>(PairingError::MalformedInput),
        r matches Ok(m) ==> m.participants == requests@.len()
            && m.constraints_view() == model_constraints(requests@),
{
    let n = requests.len();
    let mut k: usize = 0;
    while k < n
        invariant
            k <= n,
            n == requests@.len(),
            forall|i: int| 0 <= i < k ==> requests@[i] >= 0,
        decreases n - k,
    {
        if requests[k] < 0 {
            return Err(PairingError::MalformedInput);
        }
        k = k + 1;
    }
    let mut cons: Vec<LinearConstraint> = Vec::new();
    let ghost nn = n as int;

    let mut i: usize = 0;
    while i < n
        invariant
            i <= n,
            nn == n,
            views(cons@) =~= no_self_family(i as int),
        decreases n - i,
    {
        let c = LinearConstraint {
            kind: ConstraintKind::NoSelfExchange,
            terms: vec![Term { sender: i, receiver: i, coef: 1 }],
            lower: 0,
            upper: 0,
        };
        assert(c.terms@ =~= seq![term(i as int, i as int, 1)]);
        assert(c@ == no_self_spec(i as int));
        push_constraint(&mut cons, c);
        i = i + 1;
        assert(no_self_family(i as int) =~= no_self_family(i - 1).push(no_self_spec(i - 1)));
    }
    let ghost fam1 = no_self_family(nn);

    let mut i: usize = 0;
    while i < n
        invariant
            i <= n,
            nn == n,
            views(cons@) =~= fam1 + no_mutual_rows(nn, i as int),
        decreases n - i,
    {
        let ghost before = views(cons@);
        let mut j: usize = i + 1;
        while j < n
            invariant
                i < n,
                i + 1 <= j <= n,
                nn == n,
                views(cons@) =~= before + no_mutual_row(nn, i as int).take(j - i - 1),
            decreases n - j,
        {
            push_constraint(&mut cons, LinearConstraint {
                kind: ConstraintKind::NoMutualExchange,
                terms: vec![Term { sender: i, receiver: j, coef: 1 }, Term { sender: j, receiver: i, coef: 1 }],
                lower: 0,
                upper: 1,
            });
            j = j + 1;
            assert(no_mutual_row(nn, i as int).take(j - i - 1) =~= no_mutual_row(nn, i as int).take(j - i - 2).push(no_mutual_spec(i as int, j - 1)));
        }
        assert(no_mutual_row(nn, i as int).take(n - i - 1) =~= no_mutual_row(nn, i as int));
        i = i + 1;
    }
    let ghost fam2 = fam1 + no_mutual_rows(nn, nn);

    let mut i: usize = 0;
    while i < n
        invariant
            i <= n,
            nn == n,
            n == requests@.len(),
            views(cons@) =~= fam2 + capacity_family(nn, requests@).take(i as int),
        decreases n - i,
    {
        push_constraint(&mut cons, LinearConstraint {
            kind: ConstraintKind::SenderCapacity,
            terms: row_vec(n, i, 1),
            lower: 0,
            upper: requests[i] as i64,
        });
        i = i + 1;
        assert(capacity_family(nn, requests@).take(i as int) =~= capacity_family(nn, requests@).take(i - 1).push(capacity_spec(nn, i - 1, requests@[i - 1] as int)));
    }
    assert(capacity_family(nn, requests@).take(nn) =~= capacity_family(nn, requests@));
    let ghost fam3 = fam2 + capacity_family(nn, requests@);

    let mut i: usize = 0;
    while i < n
        invariant
            i <= n,
            nn == n,
            views(cons@) =~= fam3 + balance_family(nn).take(i as int),
        decreases n - i,
    {
        let mut terms = row_vec(n, i, 1);
        append_col_terms(n, i, -1, &mut terms);
        push_constraint(&mut cons, LinearConstraint { kind: ConstraintKind::FlowBalance, terms, lower: 0, upper: 0 });
        i = i + 1;
        assert(balance_family(nn).take(i as int) =~= balance_family(nn).take(i - 1).push(balance_spec(nn, i - 1)));
    }
    assert(balance_family(nn).take(nn) =~= balance_family(nn));
    let m = PairingModel { participants: n, constraints: cons };
    assert(m.constraints_view() =~= model_constraints(requests@));
    Ok(m)
}

} // verus!
