use docsniffer::engine::indexer::schema::{build_schema, FIELD_BATCH_ID, FIELD_CONTENT, FIELD_ID, TOKENIZER_ZH};
use docsniffer::engine::searcher::batch_scope;
use tantivy::schema::{FieldType, IndexRecordOption};

fn text_options(ft: &FieldType) -> (String, IndexRecordOption, bool) {
    match ft {
        FieldType::Str(o) => {
            let ix = o.get_indexing_options().expect("indexed text field");
            (ix.tokenizer().to_string(), ix.index_option(), o.is_stored())
        }
        _ => panic!("not a text field"),
    }
}

#[test]
fn schema_has_the_documented_fields_in_order() {
    let (schema, fields) = build_schema();
    assert_eq!(schema.num_fields(), 8);
    let handles = [
        fields.id, fields.path, fields.name, fields.content, fields.ext, fields.size, fields.mtime,
        fields.batch_id,
    ];
    let names: Vec<&str> = handles.iter().map(|f| schema.get_field_entry(*f).name()).collect();
    assert_eq!(names, vec!["id", "path", "name", "content", "ext", "size", "mtime", "batch_id"]);
    for (k, f) in handles.iter().enumerate() {
        assert_eq!(f.field_id() as usize, k);
    }
    assert_eq!(schema.get_field(FIELD_ID).unwrap(), fields.id);
    assert_eq!(schema.get_field(FIELD_BATCH_ID).unwrap(), fields.batch_id);
}

#[test]
fn schema_field_options() {
    let (schema, fields) = build_schema();
    let t = |f| text_options(schema.get_field_entry(f).field_type());
    assert_eq!(t(fields.id), ("raw".to_string(), IndexRecordOption::Basic, true));
    assert_eq!(t(fields.ext), ("raw".to_string(), IndexRecordOption::Basic, true));
    assert_eq!(t(fields.batch_id), ("raw".to_string(), IndexRecordOption::Basic, true));
    assert_eq!(t(fields.path), ("default".to_string(), IndexRecordOption::WithFreqsAndPositions, true));
    assert_eq!(t(fields.name), ("default".to_string(), IndexRecordOption::WithFreqsAndPositions, true));
    assert_eq!(t(fields.content), (TOKENIZER_ZH.to_string(), IndexRecordOption::WithFreqsAndPositions, false));
    assert_eq!(schema.get_field(FIELD_CONTENT).unwrap(), fields.content);
    for f in [fields.size, fields.mtime] {
        match schema.get_field_entry(f).field_type() {
            FieldType::U64(o) => assert!(o.is_indexed() && o.is_stored() && o.is_fast()),
            _ => panic!("not a u64 field"),
        }
    }
}

#[test]
fn empty_batch_id_searches_everything() {
    assert_eq!(batch_scope(Some("b1")), Some("b1"));
    assert_eq!(batch_scope(Some("")), None);
    assert_eq!(batch_scope(None), None);
}
