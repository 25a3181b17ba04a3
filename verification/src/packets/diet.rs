use vstd::prelude::*;
use lz_diet::Diet;
use std::borrow::Cow;

verus! {

#[verifier::external_type_specification]
#[verifier::external_body]
#[verifier::reject_recursive_types(T)]
pub struct ExDiet<T>(Diet<T>);

/// The values a `Diet<u64>` holds.
pub uninterp spec fn diet_values(diet: Diet<u64>) -> Set<u64>;

/// What splitting a set of values on `value` leaves on each side, as `Diet::split` gives it: the
/// values below `value` on the left and those above it on the right when both sides have some;
/// when only one side has values, they all come out on the left.
pub open spec fn spec_split(values: Set<u64>, value: u64) -> (Set<u64>, Set<u64>) {
    let below = values.filter(|x: u64| x < value);
    let above = values.filter(|x: u64| x > value);
    if !below.is_empty() && !above.is_empty() {
        (below, above)
    } else if !below.is_empty() {
        (below, Set::empty())
    } else if !above.is_empty() {
        (above, Set::empty())
    } else {
        (Set::empty(), Set::empty())
    }
}

/// An empty diet (`Diet::new`).
#[verifier::external_body]
pub(crate) fn diet_new() -> (r: Diet<u64>)
    ensures
        diet_values(r) == Set::<u64>::empty(),
{
    Diet::new()
}

/// Adds a value (`Diet::insert`), returning whether it was not there yet. Inserting
/// increments the value, so it must be below `u64::MAX`.
#[verifier::external_body]
pub(crate) fn diet_insert(diet: &mut Diet<u64>, value: u64) -> (r: bool)
    requires
        value < u64::MAX,
    ensures
        diet_values(*final(diet)) == diet_values(*old(diet)).insert(value),
        r == !diet_values(*old(diet)).contains(value),
{
    diet.insert(value)
}

/// Whether the value is there (`Diet::contains`).
#[verifier::external_body]
pub(crate) fn diet_contains(diet: &Diet<u64>, value: u64) -> (r: bool)
    ensures
        r == diet_values(*diet).contains(value),
{
    diet.contains(&value)
}

/// Splits the diet on a value (`Diet::split`), which drains it; the value itself goes to neither
/// side. Splitting increments the value, so it must be below `u64::MAX`.
#[verifier::external_body]
pub(crate) fn diet_split(diet: &mut Diet<u64>, value: u64) -> (r: (Diet<u64>, Diet<u64>))
    requires
        value < u64::MAX,
    ensures
        diet_values(*final(diet)) == Set::<u64>::empty(),
        (diet_values(r.0), diet_values(r.1)) == spec_split(diet_values(*old(diet)), value),
{
    diet.split(Cow::Owned(value))
}

/// The intervals of the diet in order (`Diet::iter`), each as its inclusive start and exclusive
/// end: they are non-empty, ascending and disjoint, and together they hold exactly its values.
#[verifier::external_body]
pub(crate) fn diet_intervals(diet: &Diet<u64>) -> (r: Vec<(u64, u64)>)
    ensures
        forall|i: int| 0 <= i < r@.len() ==> #[trigger] r@[i].0 < r@[i].1,
        forall|i: int, j: int| 0 <= i < j < r@.len() ==> #[trigger] r@[i].1 <= #[trigger] r@[j].0,
        forall|x: u64| #[trigger] diet_values(*diet).contains(x) <==> exists|i: int|
            0 <= i < r@.len() && #[trigger] r@[i].0 <= x && x < r@[i].1,
{
    diet.iter().map(|interval| (*interval.inclusive_start(), *interval.exclusive_end())).collect()
}

} // verus!
