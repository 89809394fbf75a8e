//! `random([seed])`: the decision of how a call is seeded. A call without
//! arguments, or with a null seed, draws unseeded values (one per row); an
//! integer seed gives one value drawn from a generator seeded with the
//! seed's bits as a `u64`. The draw itself, a float, is not part of the
//! library.

use vstd::prelude::*;

verus! {

/// One argument of a `random` call, as far as the seed decision looks at it.
#[derive(Debug, PartialEq, Eq)]
pub enum SeedArgument {
    Int8(Option<i8>),
    Int16(Option<i16>),
    Int32(Option<i32>),
    Int64(Option<i64>),
    UInt8(Option<u8>),
    UInt16(Option<u16>),
    UInt32(Option<u32>),
    UInt64(Option<u64>),
    /// The untyped null.
    Null,
    /// A scalar of any other type, with its printed form.
    OtherScalar(String),
    /// A column (not a scalar), with its printed data type.
    Array(String),
}

/// How the values of a `random` call are drawn.
#[derive(Debug, Clone, Copy, PartialEq, Eq, Structural)]
pub enum SeedPlan {
    /// One value per row, from a generator seeded by the system.
    Unseeded,
    /// One value, from a generator seeded with this number.
    Seeded(u64),
}

/// Why a `random` call was refused.
#[derive(Debug, PartialEq, Eq)]
pub enum RandomError {
    /// More than one argument was given; holds their number.
    TooManyArguments(usize),
    /// The seed is a scalar that is not an integer; holds its printed form.
    NonIntegerSeed(String),
    /// The seed is a column; holds its printed data type.
    NonScalarSeed(String),
}

/// What one seed argument decides.
pub open spec fn seed_plan_of(arg: SeedArgument) -> Result<SeedPlan, RandomError> {
    match arg {
        SeedArgument::Int8(Some(v)) => Ok(SeedPlan::Seeded(v as u64)),
        SeedArgument::Int16(Some(v)) => Ok(SeedPlan::Seeded(v as u64)),
        SeedArgument::Int32(Some(v)) => Ok(SeedPlan::Seeded(v as u64)),
        SeedArgument::Int64(Some(v)) => Ok(SeedPlan::Seeded(v as u64)),
        SeedArgument::UInt8(Some(v)) => Ok(SeedPlan::Seeded(v as u64)),
        SeedArgument::UInt16(Some(v)) => Ok(SeedPlan::Seeded(v as u64)),
        SeedArgument::UInt32(Some(v)) => Ok(SeedPlan::Seeded(v as u64)),
        SeedArgument::UInt64(Some(v)) => Ok(SeedPlan::Seeded(v)),
        SeedArgument::OtherScalar(s) => Err(RandomError::NonIntegerSeed(s)),
        SeedArgument::Array(t) => Err(RandomError::NonScalarSeed(t)),
        _ => Ok(SeedPlan::Unseeded),
    }
}

/// What the arguments of a `random` call decide.
pub open spec fn seed_plan_spec(args: Seq<SeedArgument>) -> Result<SeedPlan, RandomError> {
    if args.len() == 0 {
        Ok(SeedPlan::Unseeded)
    } else if args.len() > 1 {
        Err(RandomError::TooManyArguments(args.len() as usize))
    } else {
        seed_plan_of(args[0])
    }
}

/// Every non-null integer seed, zero and negative values included, seeds
/// the generator with its bits as a `u64`; a call without arguments, or
/// with a null seed of any integer type or the untyped null, is unseeded.
pub proof fn lemma_seed_plan_outcome(
    a: i8,
    b: i16,
    c: i32,
    d: i64,
    e: u8,
    f: u16,
    g: u32,
    h: u64,
)
    ensures
        seed_plan_spec(seq![SeedArgument::Int8(Some(a))]) == Ok::<_, RandomError>(SeedPlan::Seeded(a as u64)),
        seed_plan_spec(seq![SeedArgument::Int16(Some(b))]) == Ok::<_, RandomError>(SeedPlan::Seeded(b as u64)),
        seed_plan_spec(seq![SeedArgument::Int32(Some(c))]) == Ok::<_, RandomError>(SeedPlan::Seeded(c as u64)),
        seed_plan_spec(seq![SeedArgument::Int64(Some(d))]) == Ok::<_, RandomError>(SeedPlan::Seeded(d as u64)),
        seed_plan_spec(seq![SeedArgument::UInt8(Some(e))]) == Ok::<_, RandomError>(SeedPlan::Seeded(e as u64)),
        seed_plan_spec(seq![SeedArgument::UInt16(Some(f))]) == Ok::<_, RandomError>(SeedPlan::Seeded(f as u64)),
        seed_plan_spec(seq![SeedArgument::UInt32(Some(g))]) == Ok::<_, RandomError>(SeedPlan::Seeded(g as u64)),
        seed_plan_spec(seq![SeedArgument::UInt64(Some(h))]) == Ok::<_, RandomError>(SeedPlan::Seeded(h)),
        seed_plan_spec(Seq::<SeedArgument>::empty()) == Ok::<_, RandomError>(SeedPlan::Unseeded),
        seed_plan_spec(seq![SeedArgument::Null]) == Ok::<_, RandomError>(SeedPlan::Unseeded),
        seed_plan_spec(seq![SeedArgument::Int8(None)]) == Ok::<_, RandomError>(SeedPlan::Unseeded),
        seed_plan_spec(seq![SeedArgument::Int16(None)]) == Ok::<_, RandomError>(SeedPlan::Unseeded),
        seed_plan_spec(seq![SeedArgument::Int32(None)]) == Ok::<_, RandomError>(SeedPlan::Unseeded),
        seed_plan_spec(seq![SeedArgument::Int64(None)]) == Ok::<_, RandomError>(SeedPlan::Unseeded),
        seed_plan_spec(seq![SeedArgument::UInt8(None)]) == Ok::<_, RandomError>(SeedPlan::Unseeded),
        seed_plan_spec(seq![SeedArgument::UInt16(None)]) == Ok::<_, RandomError>(SeedPlan::Unseeded),
        seed_plan_spec(seq![SeedArgument::UInt32(None)]) == Ok::<_, RandomError>(SeedPlan::Unseeded),
        seed_plan_spec(seq![SeedArgument::UInt64(None)]) == Ok::<_, RandomError>(SeedPlan::Unseeded),
{
}

/// More than one argument is refused with their number; a seed that is a
/// scalar of a non-integer type, or a column, is refused with its printed
/// form or data type.
pub proof fn lemma_seed_plan_refusals(args: Seq<SeedArgument>, printed: String, data_type: String)
    ensures
        args.len() > 1 ==> seed_plan_spec(args) == Err::<SeedPlan, _>(
            RandomError::TooManyArguments(args.len() as usize),
        ),
        seed_plan_spec(seq![SeedArgument::OtherScalar(printed)]) == Err::<SeedPlan, _>(
            RandomError::NonIntegerSeed(printed),
        ),
        seed_plan_spec(seq![SeedArgument::Array(data_type)]) == Err::<SeedPlan, _>(
            RandomError::NonScalarSeed(data_type),
        ),
{
}

/// Decides how a `random` call with these arguments draws its values.
pub fn resolve_seed(args: &Vec<SeedArgument>) -> (r: Result<SeedPlan, RandomError>)
    ensures
        r == seed_plan_spec(args@),
        args.len() == 1 ==> match args@[0] {
            SeedArgument::Int8(Some(v)) => r == Ok::<_, RandomError>(SeedPlan::Seeded(v as u64)),
            SeedArgument::Int16(Some(v)) => r == Ok::<_, RandomError>(SeedPlan::Seeded(v as u64)),
            SeedArgument::Int32(Some(v)) => r == Ok::<_, RandomError>(SeedPlan::Seeded(v as u64)),
            SeedArgument::Int64(Some(v)) => r == Ok::<_, RandomError>(SeedPlan::Seeded(v as u64)),
            SeedArgument::UInt8(Some(v)) => r == Ok::<_, RandomError>(SeedPlan::Seeded(v as u64)),
            SeedArgument::UInt16(Some(v)) => r == Ok::<_, RandomError>(SeedPlan::Seeded(v as u64)),
            SeedArgument::UInt32(Some(v)) => r == Ok::<_, RandomError>(SeedPlan::Seeded(v as u64)),
            SeedArgument::UInt64(Some(v)) => r == Ok::<_, RandomError>(SeedPlan::Seeded(v)),
            _ => true,
        },
{
    if args.len() == 0 {
        return Ok(SeedPlan::Unseeded);
    }
    if args.len() != 1 {
        return Err(RandomError::TooManyArguments(args.len()));
    }
    match &args[0] {
        SeedArgument::Int8(Some(v)) => Ok(SeedPlan::Seeded(*v as u64)),
        SeedArgument::Int16(Some(v)) => Ok(SeedPlan::Seeded(*v as u64)),
        SeedArgument::Int32(Some(v)) => Ok(SeedPlan::Seeded(*v as u64)),
        SeedArgument::Int64(Some(v)) => Ok(SeedPlan::Seeded(*v as u64)),
        SeedArgument::UInt8(Some(v)) => Ok(SeedPlan::Seeded(*v as u64)),
        SeedArgument::UInt16(Some(v)) => Ok(SeedPlan::Seeded(*v as u64)),
        SeedArgument::UInt32(Some(v)) => Ok(SeedPlan::Seeded(*v as u64)),
        SeedArgument::UInt64(Some(v)) => Ok(SeedPlan::Seeded(*v)),
        SeedArgument::OtherScalar(s) => Err(RandomError::NonIntegerSeed(s.clone())),
        SeedArgument::Array(t) => Err(RandomError::NonScalarSeed(t.clone())),
        _ => Ok(SeedPlan::Unseeded),
    }
}

} // verus!
