//! Folding a sequence of items into an accumulator that partial results
//! can be merged into.
use vstd::prelude::*;

verus! {

/// An accumulator that another one of its kind can be merged into.
pub trait Merge: Sized {
    fn merge(&mut self, other: Self);
}

impl Merge for () {
    fn merge(&mut self, other: ()) {
    }
}

impl Merge for usize {
    /// Adds the counts, saturating at `usize::MAX`.
    fn merge(&mut self, other: usize) {
        *self = self.saturating_add(other);
    }
}

impl<T> Merge for Option<T> {
    /// Keeps the first value present.
    fn merge(&mut self, other: Option<T>) {
        if self.is_none() {
            *self = other;
        }
    }
}

impl<T> Merge for Vec<T> {
    /// Appends the other's items.
    fn merge(&mut self, other: Vec<T>) {
        let mut other = other;
        self.append(&mut other);
    }
}

impl<A: Merge, B: Merge> Merge for (A, B) {
    fn merge(&mut self, other: (A, B)) {
        self.0.merge(other.0);
        self.1.merge(other.1);
    }
}

/// Folds `items` in order into `Acc::default()` with `f`, stopping at the
/// first error: `f` takes each accumulator with the next item to the
/// following one; on an error, the items after the failing one are not used.
pub fn seq_fold_reduce<Acc: Merge + Default, T, E, F: Fn(Acc, T) -> Result<Acc, E>>(items: Vec<T>, f: F) -> (r: Result<Acc, E>)
    requires
        forall|a: Acc, t: T| #[trigger] f.requires((a, t)),
    ensures
        r matches Ok(acc) ==> exists|accs: Seq<Acc>| #[trigger] accs.len() == items@.len() + 1 && accs.last() == acc
            && call_ensures(Acc::default, (), accs[0])
            && forall|i: int| 0 <= i < items@.len() ==> f.ensures((accs[i], items@[i]), Ok::<Acc, E>(#[trigger] accs[i + 1])),
        r matches Err(e) ==> exists|accs: Seq<Acc>| #[trigger] accs.len() <= items@.len() && accs.len() >= 1
            && call_ensures(Acc::default, (), accs[0])
            && (forall|i: int| 0 <= i < accs.len() - 1 ==> f.ensures((accs[i], items@[i]), Ok::<Acc, E>(#[trigger] accs[i + 1])))
            && f.ensures((accs.last(), items@[accs.len() - 1]), Err::<Acc, E>(e)),
{
    let ghost all = items@;
    let mut acc = Acc::default();
    let ghost mut accs: Seq<Acc> = seq![acc];
    let mut rest = items;
    let n = rest.len();
    let mut done: usize = 0;
    while rest.len() > 0
        invariant
            forall|a: Acc, t: T| #[trigger] f.requires((a, t)),
            n == all.len(),
            done + rest@.len() == n,
            all == items@,
            call_ensures(Acc::default, (), accs[0]),
            rest@ == all.subrange(done as int, n as int),
            accs.len() == done + 1,
            accs.last() == acc,
            forall|i: int| 0 <= i < done ==> f.ensures((accs[i], all[i]), Ok::<Acc, E>(#[trigger] accs[i + 1])),
        decreases rest@.len(),
    {
        let item = rest.remove(0);
        let ghost prev = acc;
        proof {
            assert(all[done as int] == item);
        }
        match f(acc, item) {
            Ok(a) => {
                proof {
                    accs = accs.push(a);
                    assert(accs[done as int] == prev);
                }
                acc = a;
            },
            Err(e) => {
                proof {
                    assert(accs.len() <= all.len());
                    assert(accs.last() == prev);
                    assert(rest@.len() + done + 1 == all.len());
                }
                return Err(e);
            },
        }
        proof {
            assert(rest@ =~= all.subrange(done + 1, n as int));
        }
        done = done + 1;
    }
    proof {
        assert(all.subrange(0, n as int) =~= all);
    }
    Ok(acc)
}

} // verus!
