use sail::random::{resolve_seed, RandomError, SeedArgument, SeedPlan};

#[test]
fn no_argument_is_unseeded() {
    assert_eq!(resolve_seed(&vec![]), Ok(SeedPlan::Unseeded));
}

#[test]
fn integer_seeds_keep_their_bits() {
    assert_eq!(resolve_seed(&vec![SeedArgument::Int64(Some(42))]), Ok(SeedPlan::Seeded(42)));
    assert_eq!(resolve_seed(&vec![SeedArgument::Int8(Some(-1))]), Ok(SeedPlan::Seeded(u64::MAX)));
    assert_eq!(resolve_seed(&vec![SeedArgument::Int32(Some(-2))]), Ok(SeedPlan::Seeded(u64::MAX - 1)));
    assert_eq!(resolve_seed(&vec![SeedArgument::UInt16(Some(7))]), Ok(SeedPlan::Seeded(7)));
    assert_eq!(resolve_seed(&vec![SeedArgument::UInt64(Some(u64::MAX))]), Ok(SeedPlan::Seeded(u64::MAX)));
}

#[test]
fn null_seeds_are_unseeded() {
    assert_eq!(resolve_seed(&vec![SeedArgument::Null]), Ok(SeedPlan::Unseeded));
    assert_eq!(resolve_seed(&vec![SeedArgument::Int16(None)]), Ok(SeedPlan::Unseeded));
    assert_eq!(resolve_seed(&vec![SeedArgument::UInt32(None)]), Ok(SeedPlan::Unseeded));
}

#[test]
fn too_many_arguments_are_refused() {
    assert_eq!(
        resolve_seed(&vec![SeedArgument::Int64(Some(1)), SeedArgument::Int64(Some(2))]),
        Err(RandomError::TooManyArguments(2))
    );
}

#[test]
fn non_integer_and_non_scalar_seeds_are_refused() {
    assert_eq!(
        resolve_seed(&vec![SeedArgument::OtherScalar("1.5".to_string())]),
        Err(RandomError::NonIntegerSeed("1.5".to_string()))
    );
    assert_eq!(
        resolve_seed(&vec![SeedArgument::Array("Int64".to_string())]),
        Err(RandomError::NonScalarSeed("Int64".to_string()))
    );
}
