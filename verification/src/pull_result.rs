//! Turning a list of results into the result of a list.

use vstd::prelude::*;

verus! {

/// A collection of results that can be turned into one result.
pub trait PullResult {
    type T;

    /// All the values if every entry is one, and the first failure if not.
    fn pull_result(self) -> Self::T;
}

/// Every entry of `list` is a value, and `values` are those values.
pub open spec fn all_ok<V, E>(list: Seq<Result<V, E>>, values: Seq<V>) -> bool {
    &&& values.len() == list.len()
    &&& forall|i: int| 0 <= i < list.len() ==> #[trigger] list[i] == Ok::<V, E>(values[i])
}

/// `e` is the first failure in `list`.
pub open spec fn first_err<V, E>(list: Seq<Result<V, E>>, e: E) -> bool {
    exists|i: int|
        0 <= i < list.len() && #[trigger] list[i] == Err::<V, E>(e) && forall|j: int|
            0 <= j < i ==> (#[trigger] list[j]) is Ok
}

impl<V, E> PullResult for Vec<Result<V, E>> {
    type T = Result<Vec<V>, E>;

    fn pull_result(self) -> (r: Result<Vec<V>, E>)
        ensures
            match r {
                Ok(values) => all_ok(self@, values@),
                Err(e) => first_err(self@, e),
            },
    {
        let mut rest = self;
        let mut reversed: Vec<V> = Vec::new();
        let mut failure: Option<E> = None;
        let ghost list = self@;
        // Walk from the end, so that an earlier failure replaces a later one.
        while rest.len() > 0
            invariant
                rest@ == list.take(rest@.len() as int),
                rest@.len() <= list.len(),
                match failure {
                    Some(e) => exists|i: int|
                        rest@.len() <= i < list.len() && #[trigger] list[i] == Err::<V, E>(e)
                            && forall|j: int| rest@.len() <= j < i ==> (#[trigger] list[j]) is Ok,
                    None => reversed@.len() == list.len() - rest@.len() && forall|k: int|
                        0 <= k < reversed@.len() ==> #[trigger] list[list.len() - 1 - k] == Ok::<
                            V,
                            E,
                        >(reversed@[k]),
                },
            decreases rest@.len(),
        {
            let ghost n = rest@.len();
            let last = rest.pop().unwrap();
            proof {
                assert(last == list[n - 1]);
                assert(rest@ =~= list.take(n - 1));
            }
            match last {
                Ok(v) => {
                    if failure.is_none() {
                        reversed.push(v);
                    }
                },
                Err(e) => {
                    failure = Some(e);
                },
            }
        }
        match failure {
            Some(e) => Err(e),
            None => {
                let mut values: Vec<V> = Vec::new();
                while reversed.len() > 0
                    invariant
                        values@.len() + reversed@.len() == list.len(),
                        forall|k: int|
                            0 <= k < reversed@.len() ==> #[trigger] list[list.len() - 1 - k]
                                == Ok::<V, E>(reversed@[k]),
                        forall|i: int|
                            0 <= i < values@.len() ==> #[trigger] list[i] == Ok::<V, E>(values@[i]),
                    decreases reversed@.len(),
                {
                    let ghost m = reversed@.len();
                    let v = reversed.pop().unwrap();
                    proof {
                        assert(list[list.len() - 1 - (m - 1)] == Ok::<V, E>(v));
                    }
                    values.push(v);
                }
                Ok(values)
            },
        }
    }
}

} // verus!
