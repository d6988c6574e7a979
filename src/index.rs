use vstd::prelude::*;

verus! {

/// The receivers of `sender` in `p`, in the order of `p`.
pub open spec fn sends_of(p: Seq<(usize, usize)>, sender: int) -> Seq<usize>
    decreases p.len(),
{
    if p.len() == 0 {
        Seq::empty()
    } else {
        sends_of(p.drop_last(), sender) + if p.last().0 == sender {
            seq![p.last().1]
        } else {
            Seq::empty()
        }
    }
}

/// The senders to `receiver` in `p`, in the order of `p`.
pub open spec fn receives_of(p: Seq<(usize, usize)>, receiver: int) -> Seq<usize>
    decreases p.len(),
{
    if p.len() == 0 {
        Seq::empty()
    } else {
        receives_of(p.drop_last(), receiver) + if p.last().1 == receiver {
            seq![p.last().0]
        } else {
            Seq::empty()
        }
    }
}

/// Per participant, whom they send to and whom they receive from.
#[derive(Debug, Clone)]
pub struct ActivityIndex {
    pub sends_by: Vec<Vec<usize>>,
    pub receives_by: Vec<Vec<usize>>,
}

/// `(sender, receiver)` is in `p` exactly when `receiver` is among the
/// receivers of `sender`.
pub proof fn lemma_sends_contains(p: Seq<(usize, usize)>, sender: usize, receiver: usize)
    ensures
        p.contains((sender, receiver)) <==> sends_of(p, sender as int).contains(receiver),
    decreases p.len(),
{
    if p.len() > 0 {
        let q = p.drop_last();
        lemma_sends_contains(q, sender, receiver);
        let tail = if p.last().0 == sender as int { seq![p.last().1] } else { Seq::<usize>::empty() };
        let s = sends_of(p, sender as int);
        assert(s == sends_of(q, sender as int) + tail);
        if p.contains((sender, receiver)) {
            let w = choose|w: int| 0 <= w < p.len() && p[w] == (sender, receiver);
            if w < q.len() {
                assert(q[w] == (sender, receiver));
                let u = choose|u: int| 0 <= u < sends_of(q, sender as int).len() && sends_of(q, sender as int)[u] == receiver;
                assert(s[u] == receiver);
            } else {
                assert(s[s.len() - 1] == receiver);
            }
        }
        if s.contains(receiver) {
            let u = choose|u: int| 0 <= u < s.len() && s[u] == receiver;
            if u < sends_of(q, sender as int).len() {
                assert(sends_of(q, sender as int)[u] == receiver);
                let w = choose|w: int| 0 <= w < q.len() && q[w] == (sender, receiver);
                assert(p[w] == (sender, receiver));
            } else {
                assert(p[p.len() - 1] == (sender, receiver));
            }
        }
    }
}

fn senders_row(pairs: &Vec<(usize, usize)>, sender: usize) -> (r: Vec<usize>)
    ensures
        r@ == sends_of(pairs@, sender as int),
{
    let mut r: Vec<usize> = Vec::new();
    let mut k: usize = 0;
    while k < pairs.len()
        invariant
            k <= pairs@.len(),
            r@ == sends_of(pairs@.take(k as int), sender as int),
        decreases pairs@.len() - k,
    {
        assert(pairs@.take(k + 1).drop_last() =~= pairs@.take(k as int));
        if pairs[k].0 == sender {
            r.push(pairs[k].1);
        }
        k = k + 1;
        assert(r@ =~= sends_of(pairs@.take(k as int), sender as int));
    }
    assert(pairs@.take(k as int) =~= pairs@);
    r
}

fn receivers_row(pairs: &Vec<(usize, usize)>, receiver: usize) -> (r: Vec<usize>)
    ensures
        r@ == receives_of(pairs@, receiver as int),
{
    let mut r: Vec<usize> = Vec::new();
    let mut k: usize = 0;
    while k < pairs.len()
        invariant
            k <= pairs@.len(),
            r@ == receives_of(pairs@.take(k as int), receiver as int),
        decreases pairs@.len() - k,
    {
        assert(pairs@.take(k + 1).drop_last() =~= pairs@.take(k as int));
        if pairs[k].1 == receiver {
            r.push(pairs[k].0);
        }
        k = k + 1;
        assert(r@ =~= receives_of(pairs@.take(k as int), receiver as int));
    }
    assert(pairs@.take(k as int) =~= pairs@);
    r
}

/// Groups `pairs` by sender and by receiver for participants `0..n`; each
/// list keeps the relative order of `pairs`.
pub fn index_pairings(n: usize, pairs: &Vec<(usize, usize)>) -> (r: ActivityIndex)
    ensures
        r.sends_by@.len() == n,
        r.receives_by@.len() == n,
        forall|i: int| 0 <= i < n ==> #[trigger] r.sends_by@[i]@ == sends_of(pairs@, i),
        forall|i: int| 0 <= i < n ==> #[trigger] r.receives_by@[i]@ == receives_of(pairs@, i),
{
    let mut sends_by: Vec<Vec<usize>> = Vec::new();
    let mut receives_by: Vec<Vec<usize>> = Vec::new();
    let mut i: usize = 0;
    while i < n
        invariant
            i <= n,
            sends_by@.len() == i,
            receives_by@.len() == i,
            forall|k: int| 0 <= k < i ==> #[trigger] sends_by@[k]@ == sends_of(pairs@, k),
            forall|k: int| 0 <= k < i ==> #[trigger] receives_by@[k]@ == receives_of(pairs@, k),
        decreases n - i,
    {
        sends_by.push(senders_row(pairs, i));
        receives_by.push(receivers_row(pairs, i));
        i = i + 1;
    }
    ActivityIndex { sends_by, receives_by }
}

} // verus!
