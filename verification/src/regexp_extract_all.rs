//! `regexp_extract_all(str, regexp[, idx])`: for each row, the text that
//! group `idx` of the regular expression captured in each successive
//! non-overlapping match (the whole match for group 0; null where the group
//! did not take part in a match). A null argument gives a null row.

use vstd::prelude::*;
use crate::pattern::{
    captures_group_all, compile_pattern, regex_accepts, regex_group_captures, regex_group_count,
    CompiledPattern,
};

verus! {

/// Why `regexp_extract_all` refused its input.
#[derive(Debug, Clone, Copy, PartialEq, Eq, Structural)]
pub enum RegexpExtractAllError {
    /// The pattern is not a regular expression that can be compiled.
    InvalidPattern,
    /// The group index is negative.
    NegativeGroupIndex(i64),
}

/// Compiles `pattern`.
pub fn parse_regex(pattern: &str) -> (r: Result<CompiledPattern, RegexpExtractAllError>)
    ensures
        r is Ok <==> regex_accepts(pattern@),
        r matches Ok(c) ==> c.source() == pattern@,
        r matches Err(e) ==> e == RegexpExtractAllError::InvalidPattern,
{
    match compile_pattern(pattern) {
        Ok(compiled) => Ok(compiled),
        Err(_) => Err(RegexpExtractAllError::InvalidPattern),
    }
}

/// A result seen through the deep view of its value.
pub open spec fn result_view<T: DeepView, E>(r: Result<T, E>) -> Result<T::V, E> {
    match r {
        Ok(v) => Ok(v.deep_view()),
        Err(e) => Err(e),
    }
}

/// What `extract_all_matches` gives for a text, a pattern and a group index.
pub open spec fn extract_all_matches_spec(value: Seq<char>, pattern: Seq<char>, group_idx: i64) -> Result<
    Seq<Option<Seq<char>>>,
    RegexpExtractAllError,
> {
    if group_idx < 0 {
        Err(RegexpExtractAllError::NegativeGroupIndex(group_idx))
    } else {
        Ok(regex_group_captures(pattern, value, group_idx as usize))
    }
}

/// The text that group `group_idx` captured in each match of `re` in `value`.
pub fn extract_all_matches(value: &str, re: &CompiledPattern, group_idx: i64) -> (r: Result<
    Vec<Option<String>>,
    RegexpExtractAllError,
>)
    ensures
        result_view(r) == extract_all_matches_spec(value@, re.source(), group_idx),
        group_idx >= 0 ==> result_view(r) == Ok::<_, RegexpExtractAllError>(
            regex_group_captures(re.source(), value@, group_idx as usize),
        ),
        group_idx < 0 ==> r == Err::<Vec<Option<String>>, _>(
            RegexpExtractAllError::NegativeGroupIndex(group_idx),
        ),
        group_idx == 0 ==> (r matches Ok(v) && forall|i: int| 0 <= i < v.len() ==> (#[trigger] v@[i]) is Some),
        r matches Ok(v) ==> v.len() == regex_group_captures(re.source(), value@, 0).len(),
        group_idx >= 0 && group_idx as usize >= regex_group_count(re.source()) ==> (r matches Ok(v) && forall|i: int|
            0 <= i < v.len() ==> (#[trigger] v@[i]) is None),
{
    if group_idx < 0 {
        return Err(RegexpExtractAllError::NegativeGroupIndex(group_idx));
    }
    let group = group_idx as usize;
    Ok(captures_group_all(re, value, group))
}


/// A non-negative group index gives exactly the captures of that group, one
/// entry per match of the pattern in the text as given; a negative one is
/// refused with that index.
pub proof fn lemma_extract_all_matches_outcome(value: Seq<char>, pattern: Seq<char>, group_idx: i64)
    ensures
        group_idx >= 0 ==> extract_all_matches_spec(value, pattern, group_idx) == Ok::<
            _,
            RegexpExtractAllError,
        >(regex_group_captures(pattern, value, group_idx as usize)),
        group_idx < 0 ==> extract_all_matches_spec(value, pattern, group_idx) == Err::<
            Seq<Option<Seq<char>>>,
            _,
        >(RegexpExtractAllError::NegativeGroupIndex(group_idx)),
{
}

/// The entry of a column for row `i`: a column of one value gives that value
/// to every row.
pub open spec fn column_at<T>(column: Seq<T>, i: int) -> T {
    if column.len() == 1 {
        column[0]
    } else {
        column[i]
    }
}

/// One row of `regexp_extract_all`.
pub open spec fn extract_row(
    value: Option<Seq<char>>,
    pattern: Option<Seq<char>>,
    group_idx: Option<i64>,
) -> Result<Option<Seq<Option<Seq<char>>>>, RegexpExtractAllError> {
    match (pattern, group_idx, value) {
        (Some(p), Some(g), Some(v)) => if !regex_accepts(p) {
            Err(RegexpExtractAllError::InvalidPattern)
        } else {
            match extract_all_matches_spec(v, p, g) {
                Ok(m) => Ok(Some(m)),
                Err(e) => Err(e),
            }
        },
        _ => Ok(None),
    }
}

/// The first `n` rows of `regexp_extract_all`, or the error of the first row
/// among them that fails.
pub open spec fn extract_rows(
    values: Seq<Option<Seq<char>>>,
    patterns: Seq<Option<Seq<char>>>,
    group_indices: Seq<Option<i64>>,
    n: nat,
) -> Result<Seq<Option<Seq<Option<Seq<char>>>>>, RegexpExtractAllError>
    decreases n,
{
    if n == 0 {
        Ok(Seq::empty())
    } else {
        match extract_rows(values, patterns, group_indices, (n - 1) as nat) {
            Err(e) => Err(e),
            Ok(rows) => match extract_row(
                values[n - 1],
                column_at(patterns, n - 1),
                column_at(group_indices, n - 1),
            ) {
                Err(e) => Err(e),
                Ok(row) => Ok(rows.push(row)),
            },
        }
    }
}

/// `regexp_extract_all` over columns: a pattern given once for all rows is
/// compiled before any row, so an invalid one is refused even when no row
/// uses it.
pub open spec fn regexp_extract_all_spec(
    values: Seq<Option<Seq<char>>>,
    patterns: Seq<Option<Seq<char>>>,
    group_indices: Seq<Option<i64>>,
) -> Result<Seq<Option<Seq<Option<Seq<char>>>>>, RegexpExtractAllError> {
    if patterns.len() == 1 && patterns[0] is Some && !regex_accepts(patterns[0]->0) {
        Err(RegexpExtractAllError::InvalidPattern)
    } else {
        extract_rows(values, patterns, group_indices, values.len())
    }
}

/// Once a row fails, every longer prefix fails with the same error.
pub proof fn lemma_extract_rows_error_persists(
    values: Seq<Option<Seq<char>>>,
    patterns: Seq<Option<Seq<char>>>,
    group_indices: Seq<Option<i64>>,
    k: nat,
    n: nat,
)
    requires
        k <= n,
        extract_rows(values, patterns, group_indices, k) is Err,
    ensures
        extract_rows(values, patterns, group_indices, n) == extract_rows(
            values,
            patterns,
            group_indices,
            k,
        ),
    decreases n - k,
{
    if k < n {
        lemma_extract_rows_error_persists(values, patterns, group_indices, k, (n - 1) as nat);
    }
}

/// When the first `n` rows succeed, there is one output row per input row,
/// and each is what `extract_row` gives for that row's text, pattern and
/// group index: in particular a null row wherever one of them is null.
pub proof fn lemma_extract_rows_each_row(
    values: Seq<Option<Seq<char>>>,
    patterns: Seq<Option<Seq<char>>>,
    group_indices: Seq<Option<i64>>,
    n: nat,
)
    requires
        extract_rows(values, patterns, group_indices, n) is Ok,
    ensures
        ({
            let rows = extract_rows(values, patterns, group_indices, n)->Ok_0;
            &&& rows.len() == n
            &&& forall|i: int|
                0 <= i < n ==> extract_row(
                    values[i],
                    column_at(patterns, i),
                    column_at(group_indices, i),
                ) == Ok::<_, RegexpExtractAllError>(#[trigger] rows[i])
        }),
    decreases n,
{
    if n > 0 {
        lemma_extract_rows_each_row(values, patterns, group_indices, (n - 1) as nat);
    }
}

/// Prefixes agree when the two pattern columns give every row the same
/// pattern.
proof fn lemma_extract_rows_same_patterns(
    values: Seq<Option<Seq<char>>>,
    patterns_a: Seq<Option<Seq<char>>>,
    patterns_b: Seq<Option<Seq<char>>>,
    group_indices: Seq<Option<i64>>,
    n: nat,
)
    requires
        forall|i: int| 0 <= i < n ==> column_at(patterns_a, i) == column_at(patterns_b, i),
    ensures
        extract_rows(values, patterns_a, group_indices, n) == extract_rows(
            values,
            patterns_b,
            group_indices,
            n,
        ),
    decreases n,
{
    if n > 0 {
        lemma_extract_rows_same_patterns(values, patterns_a, patterns_b, group_indices, (n - 1) as nat);
        assert(column_at(patterns_a, n - 1) == column_at(patterns_b, n - 1));
    }
}

/// A pattern given once stands for the same pattern repeated on every row,
/// unless it is a pattern that does not compile: that one is refused even
/// when no row would use it.
pub proof fn lemma_pattern_broadcast(
    values: Seq<Option<Seq<char>>>,
    pattern: Option<Seq<char>>,
    group_indices: Seq<Option<i64>>,
)
    requires
        pattern matches Some(p) ==> regex_accepts(p),
    ensures
        regexp_extract_all_spec(values, seq![pattern], group_indices) == regexp_extract_all_spec(
            values,
            Seq::new(values.len(), |i: int| pattern),
            group_indices,
        ),
{
    let repeated = Seq::new(values.len(), |i: int| pattern);
    assert forall|i: int| 0 <= i < values.len() implies column_at(seq![pattern], i) == column_at(
        repeated,
        i,
    ) by {}
    lemma_extract_rows_same_patterns(values, seq![pattern], repeated, group_indices, values.len());
}

/// The first `n` rows succeed exactly when each of them does; when they
/// fail, the error is that of the first row among them that fails.
proof fn lemma_extract_rows_outcome(
    values: Seq<Option<Seq<char>>>,
    patterns: Seq<Option<Seq<char>>>,
    group_indices: Seq<Option<i64>>,
    n: nat,
)
    ensures
        extract_rows(values, patterns, group_indices, n) is Ok <==> forall|i: int|
            0 <= i < n ==> (#[trigger] extract_row(
                values[i],
                column_at(patterns, i),
                column_at(group_indices, i),
            )) is Ok,
        extract_rows(values, patterns, group_indices, n) matches Err(e) ==> exists|i: int|
            0 <= i < n && #[trigger] extract_row(
                values[i],
                column_at(patterns, i),
                column_at(group_indices, i),
            ) == Err::<Option<Seq<Option<Seq<char>>>>, _>(e) && forall|j: int|
                0 <= j < i ==> (#[trigger] extract_row(
                    values[j],
                    column_at(patterns, j),
                    column_at(group_indices, j),
                )) is Ok,
    decreases n,
{
    if n > 0 {
        let m = (n - 1) as nat;
        lemma_extract_rows_outcome(values, patterns, group_indices, m);
        let last = extract_row(values[m as int], column_at(patterns, m as int), column_at(group_indices, m as int));
        if extract_rows(values, patterns, group_indices, m) is Ok && last is Err {
            assert forall|j: int| 0 <= j < m implies (#[trigger] extract_row(
                values[j],
                column_at(patterns, j),
                column_at(group_indices, j),
            )) is Ok by {}
        }
    }
}

/// What `regexp_extract_all` gives, row by row. Row `i` takes its text from
/// `values[i]`, and its pattern and group index from the one entry of their
/// column when the column has one entry, else from entry `i`. The call
/// succeeds exactly when a pattern given once compiles (or is null) and every
/// row with a text, a pattern and a group index has a pattern that compiles
/// and a non-negative group index. Then there is one result per row: null
/// where an argument is null, else the text that the group captured in each
/// match of the pattern in the text exactly as given. Otherwise the error is
/// that of the first row that fails: `InvalidPattern` for a pattern that
/// does not compile, else `NegativeGroupIndex` with the index.
pub proof fn lemma_regexp_extract_all_rows(
    values: Seq<Option<Seq<char>>>,
    patterns: Seq<Option<Seq<char>>>,
    group_indices: Seq<Option<i64>>,
)
    ensures
        regexp_extract_all_spec(values, patterns, group_indices) is Ok <==> (!(patterns.len() == 1
            && patterns[0] is Some && !regex_accepts(patterns[0]->0)) && forall|i: int|
            0 <= i < values.len() ==> {
                let p = if patterns.len() == 1 { patterns[0] } else { patterns[i] };
                let g = if group_indices.len() == 1 { group_indices[0] } else { group_indices[i] };
                (#[trigger] values[i]) is Some && p is Some && g is Some ==> regex_accepts(p->0)
                    && g->0 >= 0
            }),
        regexp_extract_all_spec(values, patterns, group_indices) matches Ok(rows) ==> rows.len()
            == values.len() && forall|i: int|
            0 <= i < values.len() ==> {
                let p = if patterns.len() == 1 { patterns[0] } else { patterns[i] };
                let g = if group_indices.len() == 1 { group_indices[0] } else { group_indices[i] };
                match (values[i], p, g) {
                    (Some(v), Some(p), Some(g)) => #[trigger] rows[i] == Some(
                        regex_group_captures(p, v, g as usize),
                    ),
                    _ => rows[i] is None,
                }
            },
        regexp_extract_all_spec(values, patterns, group_indices) matches Err(e) ==> (patterns.len()
            == 1 && patterns[0] is Some && !regex_accepts(patterns[0]->0) && e
            == RegexpExtractAllError::InvalidPattern) || exists|i: int|
            0 <= i < values.len() && {
                let p = if patterns.len() == 1 { patterns[0] } else { patterns[i] };
                let g = if group_indices.len() == 1 { group_indices[0] } else { group_indices[i] };
                &&& (#[trigger] values[i]) is Some && p is Some && g is Some
                &&& if !regex_accepts(p->0) {
                    e == RegexpExtractAllError::InvalidPattern
                } else {
                    g->0 < 0 && e == RegexpExtractAllError::NegativeGroupIndex(g->0)
                }
                &&& forall|j: int|
                    0 <= j < i ==> {
                        let pj = if patterns.len() == 1 { patterns[0] } else { patterns[j] };
                        let gj = if group_indices.len() == 1 {
                            group_indices[0]
                        } else {
                            group_indices[j]
                        };
                        (#[trigger] values[j]) is Some && pj is Some && gj is Some ==> regex_accepts(
                            pj->0,
                        ) && gj->0 >= 0
                    }
            },
{
    let n = values.len();
    lemma_extract_rows_outcome(values, patterns, group_indices, n);
    assert forall|i: int| #![trigger values[i]] 0 <= i < n implies {
        let p = column_at(patterns, i);
        let g = column_at(group_indices, i);
        let row = extract_row(values[i], p, g);
        &&& (row is Ok <==> (values[i] is Some && p is Some && g is Some ==> regex_accepts(p->0)
            && g->0 >= 0))
        &&& (row matches Ok(x) ==> match (values[i], p, g) {
            (Some(v), Some(p), Some(g)) => x == Some(regex_group_captures(p, v, g as usize)),
            _ => x is None,
        })
        &&& (row matches Err(e) ==> if !regex_accepts(p->0) {
            e == RegexpExtractAllError::InvalidPattern
        } else {
            g->0 < 0 && e == RegexpExtractAllError::NegativeGroupIndex(g->0)
        })
    } by {
        let p = column_at(patterns, i);
        let g = column_at(group_indices, i);
        match (values[i], p, g) {
            (Some(v), Some(pp), Some(gg)) => {
                lemma_extract_all_matches_outcome(v, pp, gg);
            },
            _ => {},
        }
    }
    if !(patterns.len() == 1 && patterns[0] is Some && !regex_accepts(patterns[0]->0)) {
        if extract_rows(values, patterns, group_indices, n) is Ok {
            lemma_extract_rows_each_row(values, patterns, group_indices, n);
        }
    }
}

/// Applies `regexp_extract_all` to columns of texts, patterns and group
/// indices. A column of one entry applies that entry to every row.
pub fn regexp_extract_all_inner(
    values: &Vec<Option<String>>,
    patterns: &Vec<Option<String>>,
    group_indices: &Vec<Option<i64>>,
) -> (r: Result<Vec<Option<Vec<Option<String>>>>, RegexpExtractAllError>)
    requires
        patterns.len() == 1 || values.len() <= patterns.len(),
        group_indices.len() == 1 || values.len() <= group_indices.len(),
    ensures
        result_view(r) == regexp_extract_all_spec(
            values.deep_view(),
            patterns.deep_view(),
            group_indices@,
        ),
{
    let ghost vd = values.deep_view();
    let ghost pd = patterns.deep_view();
    let ghost gd = group_indices@;
    let pattern_len = patterns.len();
    let idx_len = group_indices.len();

    let pattern_scalar: Option<CompiledPattern> = if pattern_len == 1 {
        match &patterns[0] {
            Some(p) => match parse_regex(p.as_str()) {
                Ok(re) => Some(re),
                Err(e) => {
                    return Err(e);
                },
            },
            None => None,
        }
    } else {
        None
    };
    let idx_scalar: Option<i64> = if idx_len == 1 {
        group_indices[0]
    } else {
        None
    };
    let is_pattern_null = pattern_len == 1 && patterns[0].is_none();
    let is_idx_null = idx_len == 1 && group_indices[0].is_none();

    let mut rows: Vec<Option<Vec<Option<String>>>> = Vec::new();
    let mut i: usize = 0;
    assert(rows.deep_view() =~= Seq::<Option<Seq<Option<Seq<char>>>>>::empty());
    while i < values.len()
        invariant
            vd == values.deep_view(),
            pd == patterns.deep_view(),
            gd == group_indices@,
            pattern_len == patterns.len(),
            idx_len == group_indices.len(),
            pattern_len == 1 || values.len() <= pattern_len,
            idx_len == 1 || values.len() <= idx_len,
            i <= values.len(),
            pattern_len == 1 ==> (pattern_scalar is Some <==> pd[0] is Some),
            pattern_len != 1 ==> pattern_scalar is None,
            pattern_scalar matches Some(re) ==> re.source() == pd[0]->0 && regex_accepts(pd[0]->0),
            is_pattern_null == (pattern_len == 1 && pd[0] is None),
            is_idx_null == (idx_len == 1 && gd[0] is None),
            idx_len == 1 ==> idx_scalar == gd[0],
            !(patterns.len() == 1 && pd[0] is Some && !regex_accepts(pd[0]->0)),
            extract_rows(vd, pd, gd, i as nat) == Ok::<_, RegexpExtractAllError>(rows.deep_view()),
        decreases values.len() - i,
    {
        proof {
            assert(vd[i as int] == values@[i as int].deep_view());
            if pattern_len != 1 {
                assert(pd[i as int] == patterns@[i as int].deep_view());
            } else {
                assert(pd[0] == patterns@[0].deep_view());
            }
        }
        let pattern_is_null = if pattern_len == 1 {
            is_pattern_null
        } else {
            patterns[i].is_none()
        };
        let idx_is_null = if idx_len == 1 {
            is_idx_null
        } else {
            group_indices[i].is_none()
        };
        let ghost prev = rows.deep_view();
        if pattern_is_null || idx_is_null || values[i].is_none() {
            rows.push(None);
            proof {
                assert(rows.deep_view() == prev.push(None));
            }
        } else {
            let value = values[i].as_ref().unwrap();
            let group_idx = if idx_len == 1 {
                idx_scalar.unwrap()
            } else {
                group_indices[i].unwrap()
            };
            let matches = match &pattern_scalar {
                Some(re) => extract_all_matches(value.as_str(), re, group_idx),
                None => {
                    let p = patterns[i].as_ref().unwrap();
                    match parse_regex(p.as_str()) {
                        Ok(re) => extract_all_matches(value.as_str(), &re, group_idx),
                        Err(e) => Err(e),
                    }
                },
            };
            match matches {
                Ok(m) => {
                    rows.push(Some(m));
                    proof {
                        assert(rows.deep_view() == prev.push(Some(m.deep_view())));
                    }
                },
                Err(e) => {
                    proof {
                        assert(extract_rows(vd, pd, gd, (i + 1) as nat) == Err::<Seq<Option<Seq<Option<Seq<char>>>>>, _>(e));
                        lemma_extract_rows_error_persists(vd, pd, gd, (i + 1) as nat, vd.len());
                    }
                    return Err(e);
                },
            }
        }
        i += 1;
    }
    Ok(rows)
}


/// The group index used when the call gives none.
pub const DEFAULT_GROUP_INDEX: i64 = 1;

/// The argument types that `regexp_extract_all` tells apart when it coerces
/// its arguments; every other type is `Other`.
#[derive(Debug, Clone, Copy, PartialEq, Eq, Structural)]
pub enum ArgDataType {
    Null,
    Utf8,
    Utf8View,
    LargeUtf8,
    Int8,
    Int16,
    Int32,
    Int64,
    UInt8,
    UInt16,
    UInt32,
    UInt64,
    Other,
}

/// The arguments cannot be coerced to `(STRING, STRING)` or
/// `(STRING, STRING, INT)`.
#[derive(Debug, Clone, Copy, PartialEq, Eq, Structural)]
pub struct UnsupportedArgumentTypes;

pub open spec fn is_integer_type(t: ArgDataType) -> bool {
    match t {
        ArgDataType::Int8 | ArgDataType::Int16 | ArgDataType::Int32 | ArgDataType::Int64
        | ArgDataType::UInt8 | ArgDataType::UInt16 | ArgDataType::UInt32
        | ArgDataType::UInt64 => true,
        _ => false,
    }
}

/// The type a text or pattern argument is coerced to: string types stay,
/// a null becomes `Utf8`, anything else (or a missing argument) is refused.
pub open spec fn coerce_string_arg(t: Option<ArgDataType>) -> Option<ArgDataType> {
    match t {
        Some(ArgDataType::Utf8) => Some(ArgDataType::Utf8),
        Some(ArgDataType::Utf8View) => Some(ArgDataType::Utf8View),
        Some(ArgDataType::LargeUtf8) => Some(ArgDataType::LargeUtf8),
        Some(ArgDataType::Null) => Some(ArgDataType::Utf8),
        _ => None,
    }
}

/// The type a group index argument is coerced to: `Int64` for a null or an
/// integer, nothing otherwise.
pub open spec fn coerce_index_arg(t: ArgDataType) -> Option<ArgDataType> {
    if t == ArgDataType::Null || is_integer_type(t) {
        Some(ArgDataType::Int64)
    } else {
        None
    }
}

/// The coerced argument types: the first two arguments as strings and, when
/// there are exactly three, the third as `Int64`. Arguments past the second
/// are not looked at unless there are exactly three.
pub open spec fn coerce_types_spec(args: Seq<ArgDataType>) -> Option<Seq<ArgDataType>> {
    let a0 = coerce_string_arg(if args.len() > 0 { Some(args[0]) } else { None });
    let a1 = coerce_string_arg(if args.len() > 1 { Some(args[1]) } else { None });
    if a0 is None || a1 is None {
        None
    } else if args.len() == 3 {
        match coerce_index_arg(args[2]) {
            Some(t) => Some(seq![a0->0, a1->0, t]),
            None => None,
        }
    } else {
        Some(seq![a0->0, a1->0])
    }
}

/// Coercion of two or three arguments. Each of the first two must be a
/// string type (`Utf8`, `Utf8View`, `LargeUtf8`), which it keeps, or `Null`,
/// which becomes `Utf8`; any other type there, or fewer than two arguments,
/// is refused. With exactly three arguments the third must be `Null` or one
/// of the eight integer types `Int8`, `Int16`, `Int32`, `Int64`, `UInt8`,
/// `UInt16`, `UInt32`, `UInt64`, and becomes `Int64`; any other third type
/// is refused.
pub proof fn lemma_coerce_types_outcome(args: Seq<ArgDataType>)
    ensures
        args.len() < 2 ==> coerce_types_spec(args) is None,
        args.len() >= 2 && !(args[0] == ArgDataType::Null || args[0] == ArgDataType::Utf8 || args[0]
            == ArgDataType::Utf8View || args[0] == ArgDataType::LargeUtf8) ==> coerce_types_spec(
            args,
        ) is None,
        args.len() >= 2 && !(args[1] == ArgDataType::Null || args[1] == ArgDataType::Utf8 || args[1]
            == ArgDataType::Utf8View || args[1] == ArgDataType::LargeUtf8) ==> coerce_types_spec(
            args,
        ) is None,
        args.len() >= 2 && (args[0] == ArgDataType::Null || args[0] == ArgDataType::Utf8 || args[0]
            == ArgDataType::Utf8View || args[0] == ArgDataType::LargeUtf8) && (args[1]
            == ArgDataType::Null || args[1] == ArgDataType::Utf8 || args[1] == ArgDataType::Utf8View
            || args[1] == ArgDataType::LargeUtf8) ==> {
            let c0 = if args[0] == ArgDataType::Null { ArgDataType::Utf8 } else { args[0] };
            let c1 = if args[1] == ArgDataType::Null { ArgDataType::Utf8 } else { args[1] };
            &&& args.len() != 3 ==> coerce_types_spec(args) == Some(seq![c0, c1])
            &&& args.len() == 3 && (args[2] == ArgDataType::Null || args[2] == ArgDataType::Int8
                || args[2] == ArgDataType::Int16 || args[2] == ArgDataType::Int32 || args[2]
                == ArgDataType::Int64 || args[2] == ArgDataType::UInt8 || args[2]
                == ArgDataType::UInt16 || args[2] == ArgDataType::UInt32 || args[2]
                == ArgDataType::UInt64) ==> coerce_types_spec(args) == Some(
                seq![c0, c1, ArgDataType::Int64],
            )
            &&& args.len() == 3 && !(args[2] == ArgDataType::Null || args[2] == ArgDataType::Int8
                || args[2] == ArgDataType::Int16 || args[2] == ArgDataType::Int32 || args[2]
                == ArgDataType::Int64 || args[2] == ArgDataType::UInt8 || args[2]
                == ArgDataType::UInt16 || args[2] == ArgDataType::UInt32 || args[2]
                == ArgDataType::UInt64) ==> coerce_types_spec(args) is None
        },
{
}

fn coerce_string_type(t: Option<ArgDataType>) -> (r: Option<ArgDataType>)
    ensures
        r == coerce_string_arg(t),
{
    match t {
        Some(ArgDataType::Utf8) => Some(ArgDataType::Utf8),
        Some(ArgDataType::Utf8View) => Some(ArgDataType::Utf8View),
        Some(ArgDataType::LargeUtf8) => Some(ArgDataType::LargeUtf8),
        Some(ArgDataType::Null) => Some(ArgDataType::Utf8),
        _ => None,
    }
}

/// Coerces the argument types of a `regexp_extract_all` call.
pub fn coerce_types(arg_types: &Vec<ArgDataType>) -> (r: Result<Vec<ArgDataType>, UnsupportedArgumentTypes>)
    ensures
        match coerce_types_spec(arg_types@) {
            Some(ts) => r matches Ok(v) && v@ == ts,
            None => r is Err,
        },
{
    let first = if arg_types.len() > 0 { Some(arg_types[0]) } else { None };
    let second = if arg_types.len() > 1 { Some(arg_types[1]) } else { None };
    let a0 = coerce_string_type(first);
    let a1 = coerce_string_type(second);
    match (a0, a1) {
        (Some(t0), Some(t1)) => {
            let mut res = Vec::new();
            res.push(t0);
            res.push(t1);
            if arg_types.len() == 3 {
                let t = arg_types[2];
                let is_integer = match t {
                    ArgDataType::Int8 | ArgDataType::Int16 | ArgDataType::Int32
                    | ArgDataType::Int64 | ArgDataType::UInt8 | ArgDataType::UInt16
                    | ArgDataType::UInt32 | ArgDataType::UInt64 => true,
                    _ => false,
                };
                let is_null = match t {
                    ArgDataType::Null => true,
                    _ => false,
                };
                if is_null || is_integer {
                    res.push(ArgDataType::Int64);
                } else {
                    return Err(UnsupportedArgumentTypes);
                }
            }
            proof {
                if arg_types.len() == 3 {
                    assert(res@ =~= seq![t0, t1, ArgDataType::Int64]);
                } else {
                    assert(res@ =~= seq![t0, t1]);
                }
            }
            Ok(res)
        },
        _ => Err(UnsupportedArgumentTypes),
    }
}

} // verus!
