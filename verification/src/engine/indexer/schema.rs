//! The index schema: which fields a document has, how each is indexed and
//! whether it is stored.
use vstd::prelude::*;
use tantivy::schema::{
    Field, IndexRecordOption, NumericOptions, Schema, SchemaBuilder, TextFieldIndexing,
    TextOptions,
};

verus! {

#[verifier::external_type_specification]
#[verifier::external_body]
pub struct ExSchemaBuilder(SchemaBuilder);

#[verifier::external_type_specification]
#[verifier::external_body]
pub struct ExSchema(Schema);

#[verifier::external_type_specification]
#[verifier::external_body]
pub struct ExField(Field);

/// Field names (also used as storage keys).
pub const FIELD_ID: &'static str = "id";
pub const FIELD_PATH: &'static str = "path";
pub const FIELD_NAME: &'static str = "name";
pub const FIELD_CONTENT: &'static str = "content";
pub const FIELD_EXT: &'static str = "ext";
pub const FIELD_SIZE: &'static str = "size";
pub const FIELD_MTIME: &'static str = "mtime";
pub const FIELD_BATCH_ID: &'static str = "batch_id";

/// Name of the CJK-aware tokenizer registered on the index.
pub const TOKENIZER_ZH: &'static str = "zh";

/// An untokenized text field (indexed as one token, without frequencies),
/// stored.
pub const KIND_RAW: u8 = 0;

/// A tokenized text field with frequencies and positions, stored.
pub const KIND_TEXT: u8 = 1;

/// A tokenized text field with frequencies and positions, not stored.
pub const KIND_INDEXED: u8 = 2;

/// A `u64` field, indexed, stored and fast.
pub const KIND_FAST_U64: u8 = 3;

/// A field entry as the contracts see it: name, kind and tokenizer name
/// (empty for a numeric field).
pub type FieldSpec = (Seq<char>, u8, Seq<char>);

/// The fields added to a schema builder so far, in order.
pub uninterp spec fn builder_fields(b: SchemaBuilder) -> Seq<FieldSpec>;

/// The fields of a built schema, in order.
pub uninterp spec fn schema_fields(s: Schema) -> Seq<FieldSpec>;

/// The number a field handle stands for (`Field::field_id`).
pub uninterp spec fn field_id(f: Field) -> u32;

/// A field called `name` can be added to `b`: the name is valid (not empty,
/// not starting with `-`) and not taken, and the field count fits a `u32`.
pub open spec fn addable(b: SchemaBuilder, name: Seq<char>) -> bool {
    &&& name.len() > 0
    &&& name[0] != '-'
    &&& forall|i: int| 0 <= i < builder_fields(b).len() ==> (#[trigger] builder_fields(b)[i]).0 != name
    &&& builder_fields(b).len() < u32::MAX
}

/// `Schema::builder`: an empty builder.
#[verifier::external_body]
fn new_builder() -> (b: SchemaBuilder)
    ensures
        builder_fields(b) == Seq::<FieldSpec>::empty(),
{
    Schema::builder()
}

/// `SchemaBuilder::add_text_field` with the `raw` tokenizer, basic record
/// option and stored. Tantivy appends the field and hands back the handle
/// numbered by its position; it panics on an invalid or taken name, which
/// `requires` rules out.
#[verifier::external_body]
fn add_raw_stored(b: &mut SchemaBuilder, name: &str) -> (f: Field)
    requires
        addable(*old(b), name@),
    ensures
        builder_fields(*final(b)) == builder_fields(*old(b)).push((name@, KIND_RAW, "raw"@)),
        field_id(f) == builder_fields(*old(b)).len(),
{
    b.add_text_field(
        name,
        TextOptions::default().set_indexing_options(
            TextFieldIndexing::default().set_tokenizer("raw").set_index_option(
                IndexRecordOption::Basic,
            ),
        ).set_stored(),
    )
}

/// `SchemaBuilder::add_text_field` with the default tokenizer (`default`),
/// frequencies and positions, stored. As for [`add_raw_stored`].
#[verifier::external_body]
fn add_positional_stored(b: &mut SchemaBuilder, name: &str) -> (f: Field)
    requires
        addable(*old(b), name@),
    ensures
        builder_fields(*final(b)) == builder_fields(*old(b)).push(
            (name@, KIND_TEXT, "default"@),
        ),
        field_id(f) == builder_fields(*old(b)).len(),
{
    b.add_text_field(
        name,
        TextOptions::default().set_indexing_options(
            TextFieldIndexing::default().set_index_option(
                IndexRecordOption::WithFreqsAndPositions,
            ),
        ).set_stored(),
    )
}

/// `SchemaBuilder::add_text_field` with the tokenizer `tokenizer`,
/// frequencies and positions, not stored. As for [`add_raw_stored`].
#[verifier::external_body]
fn add_tokenized_indexed(b: &mut SchemaBuilder, name: &str, tokenizer: &str) -> (f: Field)
    requires
        addable(*old(b), name@),
    ensures
        builder_fields(*final(b)) == builder_fields(*old(b)).push(
            (name@, KIND_INDEXED, tokenizer@),
        ),
        field_id(f) == builder_fields(*old(b)).len(),
{
    b.add_text_field(
        name,
        TextOptions::default().set_indexing_options(
            TextFieldIndexing::default().set_tokenizer(tokenizer).set_index_option(
                IndexRecordOption::WithFreqsAndPositions,
            ),
        ),
    )
}

/// `SchemaBuilder::add_u64_field`, indexed, stored and fast. As for
/// [`add_raw_stored`].
#[verifier::external_body]
fn add_fast_u64(b: &mut SchemaBuilder, name: &str) -> (f: Field)
    requires
        addable(*old(b), name@),
    ensures
        builder_fields(*final(b)) == builder_fields(*old(b)).push(
            (name@, KIND_FAST_U64, Seq::<char>::empty()),
        ),
        field_id(f) == builder_fields(*old(b)).len(),
{
    b.add_u64_field(name, NumericOptions::default().set_indexed().set_stored().set_fast())
}

/// `SchemaBuilder::build`: the schema holds the builder's fields.
#[verifier::external_body]
fn build(b: SchemaBuilder) -> (s: Schema)
    ensures
        schema_fields(s) == builder_fields(b),
{
    b.build()
}

/// The field handles, used to build queries and read stored values.
pub struct Fields {
    pub id: Field,
    pub path: Field,
    pub name: Field,
    pub content: Field,
    pub ext: Field,
    pub size: Field,
    pub mtime: Field,
    pub batch_id: Field,
}

/// The index schema: `id`, `ext` and `batch_id` untokenized and stored;
/// `path` and `name` tokenized and stored; `content` tokenized with `zh`,
/// indexed only; `size` and `mtime` fast `u64`s.
pub open spec fn index_schema_spec() -> Seq<FieldSpec> {
    seq![
        ("id"@, KIND_RAW, "raw"@),
        ("path"@, KIND_TEXT, "default"@),
        ("name"@, KIND_TEXT, "default"@),
        ("content"@, KIND_INDEXED, "zh"@),
        ("ext"@, KIND_RAW, "raw"@),
        ("size"@, KIND_FAST_U64, Seq::<char>::empty()),
        ("mtime"@, KIND_FAST_U64, Seq::<char>::empty()),
        ("batch_id"@, KIND_RAW, "raw"@),
    ]
}

/// Build the index schema and its field handles; each handle is numbered
/// by its field's position in the schema.
pub fn build_schema() -> (r: (Schema, Fields))
    ensures
        schema_fields(r.0) == index_schema_spec(),
        field_id(r.1.id) == 0,
        field_id(r.1.path) == 1,
        field_id(r.1.name) == 2,
        field_id(r.1.content) == 3,
        field_id(r.1.ext) == 4,
        field_id(r.1.size) == 5,
        field_id(r.1.mtime) == 6,
        field_id(r.1.batch_id) == 7,
{
    proof {
        reveal_strlit("id");
        reveal_strlit("path");
        reveal_strlit("name");
        reveal_strlit("content");
        reveal_strlit("ext");
        reveal_strlit("size");
        reveal_strlit("mtime");
        reveal_strlit("batch_id");
        reveal_strlit("zh");
        // the names differ in their first letters
        assert("id"@[0] == 'i' && "path"@[0] == 'p' && "name"@[0] == 'n' && "content"@[0] == 'c');
        assert("ext"@[0] == 'e' && "size"@[0] == 's' && "mtime"@[0] == 'm' && "batch_id"@[0] == 'b');
    }
    let mut b = new_builder();
    let id = add_raw_stored(&mut b, FIELD_ID);
    let path = add_positional_stored(&mut b, FIELD_PATH);
    let name = add_positional_stored(&mut b, FIELD_NAME);
    let content = add_tokenized_indexed(&mut b, FIELD_CONTENT, TOKENIZER_ZH);
    let ext = add_raw_stored(&mut b, FIELD_EXT);
    let size = add_fast_u64(&mut b, FIELD_SIZE);
    let mtime = add_fast_u64(&mut b, FIELD_MTIME);
    let batch_id = add_raw_stored(&mut b, FIELD_BATCH_ID);
    let schema = build(b);
    (schema, Fields { id, path, name, content, ext, size, mtime, batch_id })
}

} // verus!
