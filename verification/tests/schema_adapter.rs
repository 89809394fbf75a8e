use sail::schema_adapter::DeltaSchemaAdapterFactory;

fn names(list: &[&str]) -> Vec<String> {
    list.iter().map(|s| s.to_string()).collect()
}

#[test]
fn map_column_index_finds_the_first_field_of_that_name() {
    let adapter = DeltaSchemaAdapterFactory {}.create(names(&["b"]), names(&["a", "b", "c"]));
    let file = names(&["c", "b", "a", "b"]);
    assert_eq!(adapter.map_column_index(0, &file), Some(2));
    assert_eq!(adapter.map_column_index(1, &file), Some(1));
    assert_eq!(adapter.map_column_index(2, &file), Some(0));
    assert_eq!(adapter.map_column_index(1, &names(&["x"])), None);
}

#[test]
fn map_schema_projects_file_fields_in_file_order() {
    let adapter = DeltaSchemaAdapterFactory {}.create(names(&["c", "a"]), names(&["a", "b", "c"]));
    let (mapping, projection) = adapter.map_schema(&names(&["a", "b", "c", "d", "a"]));
    assert_eq!(projection, vec![0, 2, 4]);
    assert_eq!(mapping.projected_fields, names(&["c", "a"]));
    let (_, projection) = adapter.map_schema(&names(&[]));
    assert!(projection.is_empty());
}

#[test]
fn projection_is_increasing_and_complete() {
    let projected = names(&["x", "y"]);
    let adapter = DeltaSchemaAdapterFactory {}.create(projected.clone(), names(&["x", "y", "z"]));
    let file = names(&["z", "y", "q", "x", "y"]);
    let (_, projection) = adapter.map_schema(&file);
    assert!(projection.windows(2).all(|w| w[0] < w[1]));
    for (i, f) in file.iter().enumerate() {
        assert_eq!(projection.contains(&i), projected.contains(f));
    }
}
