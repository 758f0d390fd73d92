use policysql::emit::EmitError;
use policysql::identity::{JsonSchemaType, JsonValueSchema};
use policysql::json_path::{
    JsonPathSegment, JsonTypeSet, collect_json_schemas, collect_json_types,
    json_schema_candidates, parse_json_path, schema_branches,
};

fn leaf(types: &[JsonSchemaType]) -> JsonValueSchema {
    JsonValueSchema {
        types: types.to_vec(),
        properties: Vec::new(),
        items: None,
        required: Vec::new(),
        additional_properties: false,
        any_of: Vec::new(),
    }
}

fn document() -> JsonValueSchema {
    let mut tags = leaf(&[JsonSchemaType::Array]);
    tags.items = Some(Box::new(leaf(&[JsonSchemaType::String])));
    let mut root = leaf(&[JsonSchemaType::Object]);
    root.properties = vec![
        ("name".to_owned(), leaf(&[JsonSchemaType::String, JsonSchemaType::Null])),
        ("tags".to_owned(), tags),
    ];
    root.any_of = vec![leaf(&[JsonSchemaType::Boolean])];
    root
}

#[test]
fn paths_split_into_properties_and_indexes() {
    assert_eq!(
        parse_json_path("$.tags[12].name"),
        Ok(vec![
            JsonPathSegment::Property("tags".to_owned()),
            JsonPathSegment::Index,
            JsonPathSegment::Property("name".to_owned()),
        ])
    );
    assert_eq!(parse_json_path("$"), Ok(Vec::new()));
    assert_eq!(
        parse_json_path("$.ünï"),
        Ok(vec![JsonPathSegment::Property("ünï".to_owned())])
    );
    for bad in ["", "tags", "$.", "$[]", "$[1", "$[a]", "$x", "$..a"] {
        assert_eq!(
            parse_json_path(bad),
            Err(EmitError::InvariantViolation("invalid SQLite JSON path".to_owned())),
            "{bad}"
        );
    }
}

#[test]
fn candidates_follow_the_catalog_schema() {
    let root = document();
    let found = json_schema_candidates(&root, "$.tags[0]")
        .unwrap_or_else(|e| unreachable!("path is in the schema: {e:?}"));
    assert_eq!(found.len(), 1);
    assert_eq!(found[0].types, vec![JsonSchemaType::String]);
    assert_eq!(
        json_schema_candidates(&root, "$.missing").map(|v| v.len()),
        Err(EmitError::InvariantViolation("JSON path is outside the Catalog Schema".to_owned()))
    );
    assert_eq!(json_schema_candidates(&root, "$").map(|v| v.len()), Ok(1));
    assert_eq!(schema_branches(&root).len(), 2);
}

#[test]
fn types_and_schemas_are_collected_beneath() {
    let root = document();
    let mut shallow = JsonTypeSet::new();
    collect_json_types(&root, false, &mut shallow);
    assert!(shallow.contains(JsonSchemaType::Object));
    assert!(shallow.contains(JsonSchemaType::Boolean));
    assert!(!shallow.contains(JsonSchemaType::String));
    let mut deep = JsonTypeSet::new();
    collect_json_types(&root, true, &mut deep);
    assert!(deep.contains(JsonSchemaType::String));
    assert!(deep.contains(JsonSchemaType::Null));
    assert!(deep.contains(JsonSchemaType::Array));
    assert!(!deep.contains(JsonSchemaType::Integer));
    let mut all = Vec::new();
    collect_json_schemas(&root, &mut all);
    assert_eq!(all.len(), 5);
    assert_eq!(all[1].types, vec![JsonSchemaType::String, JsonSchemaType::Null]);
    assert_eq!(all[3].types, vec![JsonSchemaType::String]);
    assert_eq!(all[4].types, vec![JsonSchemaType::Boolean]);
}
