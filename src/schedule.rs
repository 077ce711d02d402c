use vstd::prelude::*;

verus! {

#[derive(PartialEq, Eq, Structural, Clone, Copy)]
pub enum OperationKind {
    Query,
    Mutation,
    Subscription,
}

/// The order in which the root fields of an operation run: a sequence of
/// batches, each run to completion before the next begins; fields of one
/// batch may run concurrently. A mutation runs its fields one at a time in
/// document order, so the effect of one is seen before the next begins; a
/// query or subscription runs them all in one batch.
pub fn root_schedule(kind: OperationKind, n: usize) -> (r: Vec<Vec<usize>>)
    ensures
        kind == OperationKind::Mutation ==> r@.len() == n && forall|i: int|
            0 <= i < n ==> (#[trigger] r@[i])@ == seq![i as usize],
        kind != OperationKind::Mutation ==> (n == 0 ==> r@.len() == 0) && (n > 0 ==> r@.len() == 1
            && r@[0]@ == Seq::new(n as nat, |i: int| i as usize)),
{
    let mut r: Vec<Vec<usize>> = Vec::new();
    if n == 0 {
        return r;
    }
    if kind == OperationKind::Mutation {
        let mut i: usize = 0;
        while i < n
            invariant
                i <= n,
                r@.len() == i,
                forall|k: int| 0 <= k < i ==> (#[trigger] r@[k])@ == seq![k as usize],
            decreases n - i,
        {
            let mut b: Vec<usize> = Vec::new();
            b.push(i);
            assert(b@ =~= seq![i]);
            r.push(b);
            i = i + 1;
        }
    } else {
        let mut all: Vec<usize> = Vec::new();
        let mut i: usize = 0;
        while i < n
            invariant
                i <= n,
                all@ =~= Seq::new(i as nat, |k: int| k as usize),
            decreases n - i,
        {
            all.push(i);
            i = i + 1;
        }
        r.push(all);
    }
    r
}

} // verus!
