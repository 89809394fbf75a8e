//! Mapping between the columns of a Delta table and those of one of its
//! data files, by column name.
//!
//! A table schema and a file schema are given by their field names, in
//! order. Fields are found by name; where names repeat, the first field of
//! that name is the one found.

use vstd::prelude::*;

verus! {

/// The indices `0..n`, in order.
pub open spec fn indices(n: nat) -> Seq<usize> {
    Seq::new(n, |i: int| i as usize)
}

/// The indices of the file fields whose names occur among the projected
/// table fields, in file order.
pub open spec fn projection_spec(projected: Seq<Seq<char>>, file_fields: Seq<Seq<char>>) -> Seq<usize> {
    indices(file_fields.len()).filter(|i: usize| projected.contains(file_fields[i as int]))
}

/// The projection lists, in increasing order and without repetition, exactly
/// the indices of the file fields whose names occur in the projected table
/// schema.
pub proof fn lemma_projection_spec(projected: Seq<Seq<char>>, file_fields: Seq<Seq<char>>, n: nat)
    requires
        n <= file_fields.len() <= usize::MAX,
    ensures
        ({
            let r = indices(n).filter(|i: usize| projected.contains(file_fields[i as int]));
            &&& forall|a: int, b: int| 0 <= a < b < r.len() ==> r[a] < r[b]
            &&& forall|a: int| 0 <= a < r.len() ==> r[a] < n && projected.contains(
                file_fields[#[trigger] r[a] as int],
            )
            &&& forall|k: int|
                0 <= k < n && projected.contains(#[trigger] file_fields[k]) ==> r.contains(
                    k as usize,
                )
        }),
    decreases n,
{
    reveal(Seq::filter);
    let pred = |i: usize| projected.contains(file_fields[i as int]);
    if n > 0 {
        lemma_projection_spec(projected, file_fields, (n - 1) as nat);
        assert(indices(n).drop_last() =~= indices((n - 1) as nat));
        let prev = indices((n - 1) as nat).filter(pred);
        let r = indices(n).filter(pred);
        let last = indices(n).last();
        assert(last == (n - 1) as usize);
        assert(r == if pred(last) { prev.push(last) } else { prev });
        if pred(last) {
            assert forall|a: int| 0 <= a < r.len() implies r[a] < n && projected.contains(
                file_fields[#[trigger] r[a] as int]) by {
                if a < prev.len() {
                    assert(r[a] == prev[a]);
                }
            }
            assert forall|a: int, b: int| 0 <= a < b < r.len() implies r[a] < r[b] by {
                assert(r[a] == prev[a]);
                if b < prev.len() {
                    assert(r[b] == prev[b]);
                }
            }
        }
        assert forall|k: int| 0 <= k < n && projected.contains(#[trigger] file_fields[k]) implies r.contains(k as usize) by {
            if k < n - 1 {
                let j = choose|j: int| 0 <= j < prev.len() && prev[j] == k as usize;
                assert(r[j] == prev[j]);
            } else {
                assert(k as usize == last);
                assert((k as usize) as int == k);
                assert(pred(last));
                assert(r[r.len() - 1] == k as usize);
            }
        }
    }
}

/// The projection of `map_schema`: increasing indices into the file fields,
/// of exactly the fields whose names occur in the projected table schema.
pub proof fn lemma_projection_exact(projected: Seq<Seq<char>>, file_fields: Seq<Seq<char>>)
    requires
        file_fields.len() <= usize::MAX,
    ensures
        ({
            let r = projection_spec(projected, file_fields);
            &&& forall|a: int, b: int| 0 <= a < b < r.len() ==> r[a] < r[b]
            &&& forall|a: int| 0 <= a < r.len() ==> r[a] < file_fields.len() && projected.contains(
                file_fields[#[trigger] r[a] as int],
            )
            &&& forall|k: int|
                0 <= k < file_fields.len() && projected.contains(#[trigger] file_fields[k])
                    ==> r.contains(k as usize)
        }),
{
    lemma_projection_spec(projected, file_fields, file_fields.len());
}

/// Returns the first index of `name` in `fields`.
pub fn find_field_index(fields: &Vec<String>, name: &String) -> (r: Option<usize>)
    ensures
        match r {
            Some(j) => j < fields.len() && fields@[j as int]@ == name@ && forall|k: int|
                0 <= k < j ==> #[trigger] fields@[k]@ != name@,
            None => forall|k: int| 0 <= k < fields.len() ==> #[trigger] fields@[k]@ != name@,
        },
{
    let mut j: usize = 0;
    while j < fields.len()
        invariant
            j <= fields.len(),
            forall|k: int| 0 <= k < j ==> #[trigger] fields@[k]@ != name@,
        decreases fields.len() - j,
    {
        if fields[j] == *name {
            return Some(j);
        }
        j += 1;
    }
    None
}

/// Makes `DeltaSchemaAdapter`s.
#[derive(Debug)]
pub struct DeltaSchemaAdapterFactory {}

impl DeltaSchemaAdapterFactory {
    /// An adapter for a table schema and its projection.
    pub fn create(&self, projected_table_fields: Vec<String>, table_fields: Vec<String>) -> (r:
        DeltaSchemaAdapter)
        ensures
            r.projected_table_fields@ == projected_table_fields@,
            r.table_fields@ == table_fields@,
    {
        DeltaSchemaAdapter { projected_table_fields, table_fields }
    }
}

/// Maps the fields of data files onto those of a table.
pub struct DeltaSchemaAdapter {
    /// The field names of the table, projected to the fields being read.
    pub projected_table_fields: Vec<String>,
    /// The field names of the table.
    pub table_fields: Vec<String>,
}

/// Casts the batches read from a file to the projected table schema.
pub struct SchemaMapping {
    /// The field names of the projected table schema.
    pub projected_fields: Vec<String>,
}

impl DeltaSchemaAdapter {
    /// The index in the file of the table field at `index`: the first file
    /// field of the same name, if any.
    pub fn map_column_index(&self, index: usize, file_fields: &Vec<String>) -> (r: Option<usize>)
        requires
            index < self.table_fields.len(),
        ensures
            match r {
                Some(j) => j < file_fields.len() && file_fields@[j as int]@
                    == self.table_fields@[index as int]@ && forall|k: int|
                    0 <= k < j ==> #[trigger] file_fields@[k]@ != self.table_fields@[index as int]@,
                None => forall|k: int|
                    0 <= k < file_fields.len() ==> #[trigger] file_fields@[k]@
                        != self.table_fields@[index as int]@,
            },
    {
        find_field_index(file_fields, &self.table_fields[index])
    }

    /// The mapping for a file, with the indices of the file fields to read:
    /// those whose names occur in the projected table schema, in file order.
    pub fn map_schema(&self, file_fields: &Vec<String>) -> (r: (SchemaMapping, Vec<usize>))
        ensures
            r.0.projected_fields@ == self.projected_table_fields@,
            r.1@ == projection_spec(self.projected_table_fields.deep_view(), file_fields.deep_view()),
    {
        let mut projection: Vec<usize> = Vec::new();
        let mut file_idx: usize = 0;
        let ghost pred = |i: usize| self.projected_table_fields.deep_view().contains(file_fields.deep_view()[i as int]);
        while file_idx < file_fields.len()
            invariant
                file_idx <= file_fields.len(),
                pred == (|i: usize| self.projected_table_fields.deep_view().contains(file_fields.deep_view()[i as int])),
                projection@ == indices(file_idx as nat).filter(pred),
            decreases file_fields.len() - file_idx,
        {
            let found = find_field_index(&self.projected_table_fields, &file_fields[file_idx]);
            proof {
                reveal(Seq::filter);
                assert(indices((file_idx + 1) as nat).drop_last() =~= indices(file_idx as nat));
                assert(file_fields.deep_view()[file_idx as int] == file_fields@[file_idx as int]@);
                let pdv = self.projected_table_fields.deep_view();
                if let Some(j) = found {
                    assert(pdv[j as int] == self.projected_table_fields@[j as int]@);
                    assert(pdv.contains(file_fields.deep_view()[file_idx as int]));
                } else {
                    assert forall|k: int| 0 <= k < pdv.len() implies pdv[k] != file_fields.deep_view()[file_idx as int] by {
                        assert(pdv[k] == self.projected_table_fields@[k]@);
                    }
                }
            }
            if found.is_some() {
                projection.push(file_idx);
            }
            file_idx += 1;
        }
        proof {
            assert(file_fields.deep_view().len() == file_fields.len());
        }
        (SchemaMapping { projected_fields: self.projected_table_fields.clone() }, projection)
    }
}

} // verus!
