use vstd::prelude::*;

verus! {

/// Whether every result is a success.
pub open spec fn all_ok<T, E>(results: Seq<Result<T, E>>) -> bool {
    forall|i: int| 0 <= i < results.len() ==> #[trigger] results[i] is Ok
}

/// Gathers the outcomes of an operation run once on each of a set of writers:
/// all the values, in order, when every one succeeded, else the first error.
/// Writers that succeeded are not rolled back when another one failed.
pub fn collect_results<T, E>(results: Vec<Result<T, E>>) -> (r: Result<Vec<T>, E>)
    ensures
        r is Ok <==> all_ok(results@),
        r matches Ok(values) ==> {
            &&& values@.len() == results@.len()
            &&& forall|i: int| 0 <= i < results@.len() ==> results@[i] == Ok::<T, E>(#[trigger] values@[i])
        },
        r matches Err(e) ==> exists|i: int| {
            &&& 0 <= i < results@.len()
            &&& #[trigger] results@[i] == Err::<T, E>(e)
            &&& forall|j: int| 0 <= j < i ==> results@[j] is Ok
        },
{
    let ghost all = results@;
    let mut rest = results;
    let mut reversed: Vec<Result<T, E>> = Vec::new();
    while rest.len() > 0
        invariant
            all == results@,
            rest@.len() + reversed@.len() == all.len(),
            forall|i: int| 0 <= i < rest@.len() ==> rest@[i] == all[i],
            forall|k: int| 0 <= k < reversed@.len() ==> reversed@[k] == all[all.len() - 1 - k],
        decreases rest@.len(),
    {
        let x = rest.pop().unwrap();
        reversed.push(x);
    }
    let mut values: Vec<T> = Vec::new();
    while reversed.len() > 0
        invariant
            all == results@,
            values@.len() + reversed@.len() == all.len(),
            forall|k: int| 0 <= k < reversed@.len() ==> reversed@[k] == all[all.len() - 1 - k],
            forall|i: int| 0 <= i < values@.len() ==> all[i] == Ok::<T, E>(#[trigger] values@[i]),
        decreases reversed@.len(),
    {
        let ghost at = values@.len() as int;
        assert(reversed@.last() == all[at]);
        let x = reversed.pop().unwrap();
        match x {
            Ok(v) => values.push(v),
            Err(e) => {
                assert(all[at] == Err::<T, E>(e));
                assert(!(all[at] is Ok));
                assert(!all_ok(all));
                assert forall|j: int| 0 <= j < at implies all[j] is Ok by {
                    assert(all[j] == Ok::<T, E>(values@[j]));
                }
                return Err(e);
            },
        }
    }
    assert forall|i: int| 0 <= i < all.len() implies #[trigger] all[i] is Ok by {
        assert(all[i] == Ok::<T, E>(values@[i]));
    }
    Ok(values)
}

} // verus!
