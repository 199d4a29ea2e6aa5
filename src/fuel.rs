//! Fuel needed to launch a module of a given mass, counting the fuel that the
//! fuel itself needs.

use vstd::prelude::*;

verus! {

/// The total fuel for `mass`: a third of the mass, rounded down, less two;
/// plus, while that amount is positive, the fuel for the fuel itself.
pub open spec fn fuel_for(mass: int) -> int
    decreases mass,
{
    let required = mass / 3 - 2;
    if required > 0 {
        required + fuel_for(required)
    } else {
        0
    }
}

/// The fuel for a positive mass is at most the mass, and never negative.
proof fn lemma_fuel_bounded(mass: int)
    ensures
        0 <= fuel_for(mass),
        mass > 0 ==> fuel_for(mass) <= mass,
    decreases mass,
{
    let required = mass / 3 - 2;
    if required > 0 {
        lemma_fuel_bounded(required);
    }
}

/// The total fuel for a module of mass `mass`; zero for a mass too small to
/// need any, including every negative mass.
pub fn calculate_fuel(mass: i32) -> (r: i32)
    ensures
        r == fuel_for(mass as int),
    decreases mass,
{
    if mass < 9 {
        return 0;
    }
    let required: i32 = mass / 3 - 2;
    proof {
        lemma_fuel_bounded(required as int);
    }
    required + calculate_fuel(required)
}


/// The sum of the fuel for each of `masses`.
pub open spec fn total_fuel_for(masses: Seq<i32>) -> int
    decreases masses.len(),
{
    if masses.len() == 0 {
        0
    } else {
        total_fuel_for(masses.drop_last()) + fuel_for(masses.last() as int)
    }
}

/// The total fuel for all of `masses`, or `None` when it does not fit in an `i32`.
pub fn total_fuel(masses: &[i32]) -> (r: Option<i32>)
    ensures
        match r {
            Some(t) => t == total_fuel_for(masses@),
            None => total_fuel_for(masses@) > i32::MAX,
        },
{
    let mut total: i32 = 0;
    let mut i: usize = 0;
    while i < masses.len()
        invariant
            i <= masses@.len(),
            total == total_fuel_for(masses@.subrange(0, i as int)),
        decreases masses.len() - i,
    {
        let f = calculate_fuel(masses[i]);
        proof {
            lemma_fuel_bounded(masses[i as int] as int);
            assert(masses@.subrange(0, i + 1).drop_last() =~= masses@.subrange(0, i as int));
        }
        if total > i32::MAX - f {
            proof {
                lemma_total_fuel_grows(masses@, i + 1);
            }
            return None;
        }
        total = total + f;
        i = i + 1;
    }
    assert(masses@.subrange(0, i as int) =~= masses@);
    Some(total)
}

/// The total fuel for a prefix of the masses never exceeds that for all of them.
proof fn lemma_total_fuel_grows(masses: Seq<i32>, k: int)
    requires
        0 <= k <= masses.len(),
    ensures
        0 <= total_fuel_for(masses.subrange(0, k)) <= total_fuel_for(masses),
    decreases masses.len(),
{
    if masses.len() > 0 {
        lemma_fuel_bounded(masses.last() as int);
        if k == masses.len() {
            assert(masses.subrange(0, k) =~= masses);
            lemma_total_fuel_grows(masses.drop_last(), k - 1);
            assert(masses.drop_last().subrange(0, k - 1) =~= masses.drop_last());
        } else {
            lemma_total_fuel_grows(masses.drop_last(), k);
            assert(masses.drop_last().subrange(0, k) =~= masses.subrange(0, k));
        }
    } else {
        assert(masses.subrange(0, k) =~= masses);
    }
}

} // verus!
