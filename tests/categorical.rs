use categorical::{product_pairs, unit_categorical, Categorical, CategoricalHash, CategoricalOrd, CategoricalVec, ZeroTotalWeight};

fn die<C: Categorical<u64, u64>>() -> C {
    C::from_iter(vec![(1, 1), (2, 1), (3, 1), (4, 1), (5, 1), (6, 1)])
}

#[test]
fn two_dice_max_beats_one_die_hash() {
    let d: CategoricalHash<u64, u64> = die();
    let max_of_two = CategoricalHash::combined(&d, &d, |a: u64, b: u64| a.max(b));
    assert_eq!(max_of_two.probability_of(&6), 11);
    assert_eq!(max_of_two.probability_of(&1), 1);
    let wins = CategoricalHash::combined(&max_of_two, &d, |double: u64, single: u64| double > single);
    // by enumeration: sum over the single die y of #{max > y} = 216 - (1 + 4 + ... + 36)
    assert_eq!(wins.probability_of(&true), 125);
    assert_eq!(wins.probability_of(&false), 91);
    assert_eq!(wins.total_weight(), 216);
}

#[test]
fn two_dice_max_beats_one_die_ord() {
    let d: CategoricalOrd<u64, u64> = die();
    let max_of_two = CategoricalOrd::combined(&d, &d, |a: u64, b: u64| a.max(b));
    let wins = CategoricalOrd::combined(&max_of_two, &d, |double: u64, single: u64| double > single);
    assert_eq!(wins.probability_of(&true), 125);
    assert_eq!(wins.iter(), vec![(false, 91), (true, 125)]);
}

#[test]
fn unit_is_identity_for_combination() {
    let unit: CategoricalVec<(), u64> = unit_categorical();
    let d = CategoricalVec::from_iter(vec![(3u64, 4u64), (1, 7), (3, 2)]);
    let c = CategoricalVec::combined(&unit, &d, |_u: (), b: u64| b);
    assert_eq!(c.into_iter(), vec![(3, 4), (1, 7), (3, 2)]);
}

#[test]
fn unit_categorical_has_one_entry() {
    let unit: CategoricalOrd<(), u64> = unit_categorical();
    assert_eq!(unit.iter(), vec![((), 1)]);
    assert_eq!(unit.probability_of(&()), 1);
}

#[test]
fn duplicate_category_merges_hash() {
    let d = CategoricalHash::from_iter(vec![(7u64, 2u64), (7, 3)]);
    assert_eq!(d.probability_of(&7), 5);
    assert_eq!(d.iter().len(), 1);
}

#[test]
fn duplicate_category_merges_ord() {
    let d = CategoricalOrd::from_iter(vec![(7u64, 2u64), (1, 4), (7, 3)]);
    assert_eq!(d.probability_of(&7), 5);
    assert_eq!(d.into_iter(), vec![(1, 4), (7, 5)]);
}

#[test]
fn dense_keeps_duplicates_and_sums_on_query() {
    let d = CategoricalVec::from_iter(vec![(7u64, 2u64), (1, 4), (7, 3)]);
    assert_eq!(d.iter(), vec![(7, 2), (1, 4), (7, 3)]);
    assert_eq!(d.probability_of(&7), 5);
    assert_eq!(d.probability_of(&1), 4);
}

#[test]
fn dense_absent_category_is_zero() {
    let d = CategoricalVec::from_iter(vec![(7u64, 2u64)]);
    assert_eq!(d.probability_of(&8), 0);
}

#[test]
fn injective_combination_dense() {
    let a = CategoricalVec::from_iter(vec![(1u64, 2u64), (2, 3)]);
    let b = CategoricalVec::from_iter(vec![(10u64, 5u64), (20, 7), (30, 11)]);
    let c = CategoricalVec::combined(&a, &b, |x: u64, y: u64| x * 100 + y);
    let entries = c.iter();
    assert_eq!(entries.len(), 6);
    assert_eq!(
        entries,
        vec![(110, 10), (120, 14), (130, 22), (210, 15), (220, 21), (230, 33)]
    );
    assert_eq!(c.probability_of(&220), 21);
}

#[test]
fn constant_combination_merges_to_product_of_totals() {
    let a = CategoricalHash::from_iter(vec![(1u64, 2u64), (2, 3)]);
    let b = CategoricalOrd::from_iter(vec![(10u64, 5u64), (20, 7)]);
    let c = CategoricalOrd::combined(&a, &b, |_x: u64, _y: u64| 0u64);
    assert_eq!(c.iter(), vec![(0, 60)]);
    let h = CategoricalHash::combined(&a, &b, |_x: u64, _y: u64| 9u64);
    assert_eq!(h.probability_of(&9), 60);
}

#[test]
fn combination_with_empty_is_empty() {
    let a = CategoricalVec::from_iter(vec![(1u64, 2u64)]);
    let b: CategoricalVec<u64, u64> = CategoricalVec::from_iter(vec![]);
    let c = CategoricalVec::combined(&a, &b, |x: u64, y: u64| x + y);
    assert_eq!(c.iter(), vec![]);
}

#[test]
fn normalize_zero_total_fails() {
    let mut d = CategoricalVec::from_iter(vec![(1u64, 0u64), (2, 0)]);
    assert_eq!(d.normalize_in_place(), Err(ZeroTotalWeight));
    assert_eq!(d.iter(), vec![(1, 0), (2, 0)]);
}

#[test]
fn normalize_unit_total_is_idempotent() {
    let mut d = CategoricalOrd::from_iter(vec![(4u64, 1u64)]);
    assert_eq!(d.normalize_in_place(), Ok(()));
    assert_eq!(d.iter(), vec![(4, 1)]);
    assert_eq!(d.normalize_in_place(), Ok(()));
    assert_eq!(d.total_weight(), 1);
}

#[test]
fn normalize_rounds_down_for_integers() {
    let mut d = CategoricalVec::from_iter(vec![(1u64, 3u64), (2, 5)]);
    assert_eq!(d.normalize_in_place(), Ok(()));
    assert_eq!(d.iter(), vec![(1, 0), (2, 0)]);
}

#[test]
fn scale_multiplies_every_weight() {
    let mut d = CategoricalHash::from_iter(vec![(1u64, 3u64), (2, 5)]);
    d.scale_in_place(4);
    assert_eq!(d.probability_of(&1), 12);
    assert_eq!(d.probability_of(&2), 20);
}

#[test]
fn uniform_over_one_category_sums_to_one() {
    let d = CategoricalVec::<u64, u64>::new_uniform(vec![42]).unwrap();
    assert_eq!(d.iter(), vec![(42, 1)]);
    assert_eq!(d.total_weight(), 1);
}

#[test]
fn uniform_over_no_category_fails() {
    let d = CategoricalHash::<u64, u64>::new_uniform(vec![]);
    assert!(d.is_err());
}

#[test]
fn uniform_merges_repeated_categories() {
    // the merged weight is 2, and its reciprocal rounds down to 0 in u64
    let d = CategoricalOrd::<u64, u64>::new_uniform(vec![3, 3]).unwrap();
    assert_eq!(d.iter(), vec![(3, 0)]);
}

#[test]
fn weights_wrap_around() {
    let d = CategoricalHash::from_iter(vec![(1u64, u64::MAX), (1, 2)]);
    assert_eq!(d.probability_of(&1), 1);
}

#[test]
fn total_weight_sums_entries() {
    let d = CategoricalVec::from_iter(vec![(1u64, 3u64), (2, 5), (1, 1)]);
    assert_eq!(d.total_weight(), 9);
}

#[test]
fn product_pairs_walks_first_outer() {
    let a = CategoricalVec::from_iter(vec![(1u64, 2u64), (2, 3)]);
    let b = CategoricalOrd::from_iter(vec![(5u64, 7u64), (4, 1)]);
    let out = product_pairs(&a, &b, |x: u64, y: u64| x * 10 + y);
    assert_eq!(out, vec![(14, 2), (15, 14), (24, 3), (25, 21)]);
}

#[test]
fn unit_categorical_hash_combines_as_identity() {
    let unit: CategoricalHash<(), u64> = unit_categorical();
    let d = CategoricalHash::from_iter(vec![(3u64, 4u64), (1, 7)]);
    let c = CategoricalHash::combined(&unit, &d, |_u: (), b: u64| b);
    assert_eq!(c.probability_of(&3), 4);
    assert_eq!(c.probability_of(&1), 7);
    assert_eq!(c.iter().len(), 2);
}
