use rand::seq::SliceRandom;
use vstd::prelude::*;

verus! {

/// Fewer records than the run needs: below the configured minimum, or fewer
/// than the test partition asks for.
#[derive(Debug, Clone, Copy, PartialEq, Eq, Structural)]
pub struct InsufficientData;

/// Relies on rand's `SliceRandom::shuffle` with `thread_rng`: a sequence of
/// swaps of in-range positions, so the result is a permutation of the input.
#[verifier::external_body]
fn shuffle_in_place<T>(rows: &mut Vec<T>)
    ensures
        final(rows)@.len() == old(rows)@.len(),
        final(rows)@.to_multiset() == old(rows)@.to_multiset(),
{
    rows.as_mut_slice().shuffle(&mut rand::thread_rng());
}

/// Splits `rows` into a test partition, its first `test_size` records, and a
/// training partition, the rest. Fails when there are fewer than `minimum`
/// records, or fewer than `test_size`.
pub fn split_dataset<T>(rows: Vec<T>, test_size: usize, minimum: usize) -> (r: Result<
    (Vec<T>, Vec<T>),
    InsufficientData,
>)
    ensures
        r is Ok <==> rows@.len() >= minimum && rows@.len() >= test_size,
        r matches Ok((test, train)) ==> test@ == rows@.subrange(0, test_size as int) && train@
            == rows@.subrange(test_size as int, rows@.len() as int),
{
    if rows.len() < minimum || rows.len() < test_size {
        return Err(InsufficientData);
    }
    let mut test = rows;
    let train = test.split_off(test_size);
    Ok((test, train))
}

/// Shuffles `rows` once, at random, and splits them as `split_dataset` does.
/// On success the two partitions hold every record exactly once.
pub fn shuffle_and_split<T>(rows: Vec<T>, test_size: usize, minimum: usize) -> (r: Result<
    (Vec<T>, Vec<T>),
    InsufficientData,
>)
    ensures
        r is Ok <==> rows@.len() >= minimum && rows@.len() >= test_size,
        r matches Ok((test, train)) ==> {
            &&& test@.len() == test_size
            &&& test@.len() + train@.len() == rows@.len()
            &&& (test@ + train@).to_multiset() == rows@.to_multiset()
        },
{
    let mut rows = rows;
    shuffle_in_place(&mut rows);
    let ghost shuffled = rows@;
    let r = split_dataset(rows, test_size, minimum);
    if let Ok((test, train)) = &r {
        assert(test@ + train@ =~= shuffled);
    }
    r
}

} // verus!
