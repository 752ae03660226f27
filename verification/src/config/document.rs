//! The configuration file as a TOML document.
use vstd::prelude::*;

use super::{FieldValue, SectionForm};

verus! {

/// `toml_edit::DocumentMut`: a TOML document that can be changed and written again.
#[verifier::external_type_specification]
#[verifier::external_body]
pub struct ExDocumentMut(toml_edit::DocumentMut);

/// A value of a document. Values that no field of a configuration can have are not told apart.
#[verifier::ext_equal]
pub enum ValueModel {
    Boolean(bool),
    Integer(i64),
    Text(Seq<char>),
    List(Seq<Seq<char>>),
    Other,
}

/// What stands under a name at the top of a document: a section with its fields, or something else.
#[verifier::ext_equal]
pub enum EntryModel {
    Table(Map<Seq<char>, ValueModel>),
    InlineTable(Map<Seq<char>, ValueModel>),
    Value(ValueModel),
}

impl EntryModel {
    /// The entry is a section.
    pub open spec fn is_section(self) -> bool {
        self is Table || self is InlineTable
    }

    /// The fields of a section.
    pub open spec fn fields(self) -> Map<Seq<char>, ValueModel> {
        match self {
            EntryModel::Table(fields) => fields,
            EntryModel::InlineTable(fields) => fields,
            EntryModel::Value(_) => Map::empty(),
        }
    }

    /// A section of the same form with other fields.
    pub open spec fn with_fields(self, fields: Map<Seq<char>, ValueModel>) -> EntryModel {
        match self {
            EntryModel::Table(_) => EntryModel::Table(fields),
            EntryModel::InlineTable(_) => EntryModel::InlineTable(fields),
            EntryModel::Value(value) => EntryModel::Value(value),
        }
    }
}

/// What a document holds.
pub uninterp spec fn document_contents(document: toml_edit::DocumentMut) -> Map<
    Seq<char>,
    EntryModel,
>;

/// How a document is written.
pub uninterp spec fn document_text(document: toml_edit::DocumentMut) -> Seq<char>;

/// What a text holds as TOML, or why it is not TOML.
pub uninterp spec fn toml_contents(text: Seq<char>) -> Result<Map<Seq<char>, EntryModel>, Seq<char>>;

/// What a document holds but for tables without fields, of which nothing may be left in its text.
pub open spec fn filled(contents: Map<Seq<char>, EntryModel>) -> Map<Seq<char>, EntryModel> {
    Map::new(
        |name: Seq<char>|
            contents.dom().contains(name) && contents[name] != EntryModel::Table(Map::empty()),
        |name: Seq<char>| contents[name],
    )
}

/// A text is read as these contents.
pub open spec fn reads_back(text: Seq<char>, contents: Map<Seq<char>, EntryModel>) -> bool {
    toml_contents(text) matches Ok(read) && filled(read) == filled(contents)
}

/// What is written of the document is read as what the document holds.
pub open spec fn is_faithful(document: toml_edit::DocumentMut) -> bool {
    reads_back(document_text(document), document_contents(document))
}

/// What stands where a section should be.
pub open spec fn form_in(contents: Map<Seq<char>, EntryModel>, section: Seq<char>) -> SectionForm {
    if !contents.dom().contains(section) {
        SectionForm::Missing
    } else {
        match contents[section] {
            EntryModel::Table(_) => SectionForm::Table,
            EntryModel::InlineTable(_) => SectionForm::InlineTable,
            EntryModel::Value(_) => SectionForm::Other,
        }
    }
}

/// The document holds a section.
pub open spec fn has_section(contents: Map<Seq<char>, EntryModel>, section: Seq<char>) -> bool {
    contents.dom().contains(section) && contents[section].is_section()
}

/// Calls the `FromStr` implementation of `toml_edit::DocumentMut`. What it reads, and what it says
/// of a text that is not TOML, depends on the text alone, and writing the document again keeps what
/// it holds.
#[verifier::external_body]
pub(crate) fn parse_document(text: &str) -> (result: Result<toml_edit::DocumentMut, String>)
    ensures
        match result {
            Ok(document) => toml_contents(text@) == Ok::<Map<Seq<char>, EntryModel>, Seq<char>>(
                document_contents(document),
            ) && is_faithful(document),
            Err(error) => toml_contents(text@) == Err::<Map<Seq<char>, EntryModel>, Seq<char>>(
                error@,
            ),
        },
{
    text.parse::<toml_edit::DocumentMut>().map_err(|error| error.to_string())
}

/// Calls the `Display` implementation of `toml_edit::DocumentMut`.
#[verifier::external_body]
pub(crate) fn written_document(document: &toml_edit::DocumentMut) -> (text: String)
    ensures
        text@ == document_text(*document),
{
    document.to_string()
}

/// Calls `toml_edit::Table::get` on the top table, and tells the kinds of what it finds apart.
#[verifier::external_body]
pub(crate) fn section_form(document: &toml_edit::DocumentMut, section: &str) -> (form: SectionForm)
    requires
        is_faithful(*document),
    ensures
        form == form_in(document_contents(*document), section@),
{
    match document.get(section) {
        None => SectionForm::Missing,
        Some(toml_edit::Item::Table(_)) => SectionForm::Table,
        Some(toml_edit::Item::Value(toml_edit::Value::InlineTable(_))) => SectionForm::InlineTable,
        Some(_) => SectionForm::Other,
    }
}

/// Calls the `IndexMut` implementation of `toml_edit::DocumentMut` to put a new table under a name
/// that is free. Its header is written, so the document stays faithful.
#[verifier::external_body]
pub(crate) fn add_section(document: &mut toml_edit::DocumentMut, section: &str)
    requires
        is_faithful(*old(document)),
        !document_contents(*old(document)).dom().contains(section@),
    ensures
        document_contents(*final(document)) == document_contents(*old(document)).insert(
            section@,
            EntryModel::Table(Map::empty()),
        ),
        is_faithful(*final(document)),
{
    document[section] = toml_edit::Item::Table(toml_edit::Table::new());
}

/// Calls the `IndexMut` implementation of `toml_edit::DocumentMut` to put a number under a name at
/// the top, in place of what stood there.
#[verifier::external_body]
pub(crate) fn put_number(document: &mut toml_edit::DocumentMut, name: &str, value: i64)
    requires
        is_faithful(*old(document)),
    ensures
        document_contents(*final(document)) == document_contents(*old(document)).insert(
            name@,
            EntryModel::Value(ValueModel::Integer(value)),
        ),
        is_faithful(*final(document)),
{
    document[name] = toml_edit::value(value);
}

/// Calls `toml_edit::TableLike::insert` on a section: the field has the value after it, in place of
/// an earlier one, and the other fields stay.
#[verifier::external_body]
pub(crate) fn put_field(
    document: &mut toml_edit::DocumentMut,
    section: &str,
    field: &str,
    value: &FieldValue,
)
    requires
        is_faithful(*old(document)),
        has_section(document_contents(*old(document)), section@),
    ensures
        ({
            let before = document_contents(*old(document));
            let entry = before[section@];
            document_contents(*final(document)) == before.insert(
                section@,
                entry.with_fields(entry.fields().insert(field@, value@)),
            )
        }),
        is_faithful(*final(document)),
{
    let item = match value {
        FieldValue::Boolean(given) => toml_edit::value(*given),
        FieldValue::Integer(given) => toml_edit::value(*given),
        FieldValue::Text(given) => toml_edit::value(given),
        FieldValue::List(given) => toml_edit::value(given.iter().collect::<toml_edit::Array>()),
    };
    if let Some(table) = document.get_mut(section).and_then(|found| found.as_table_like_mut()) {
        table.insert(field, item);
    }
}

/// Calls `toml_edit::TableLike::remove` on a section, which tells whether the field was there.
#[verifier::external_body]
pub(crate) fn take_field(document: &mut toml_edit::DocumentMut, section: &str, field: &str) -> (found:
    bool)
    requires
        is_faithful(*old(document)),
        has_section(document_contents(*old(document)), section@),
    ensures
        ({
            let before = document_contents(*old(document));
            let entry = before[section@];
            &&& found == entry.fields().dom().contains(field@)
            &&& document_contents(*final(document)) == before.insert(
                section@,
                entry.with_fields(entry.fields().remove(field@)),
            )
        }),
        is_faithful(*final(document)),
{
    document
        .get_mut(section)
        .and_then(|found| found.as_table_like_mut())
        .and_then(|table| table.remove(field))
        .is_some()
}

/// Calls `toml_edit::TableLike::is_empty` on a section.
#[verifier::external_body]
pub(crate) fn is_empty_section(document: &toml_edit::DocumentMut, section: &str) -> (empty: bool)
    requires
        is_faithful(*document),
        has_section(document_contents(*document), section@),
    ensures
        empty == (document_contents(*document)[section@].fields() == Map::<
            Seq<char>,
            ValueModel,
        >::empty()),
{
    document
        .get(section)
        .and_then(|found| found.as_table_like())
        .is_some_and(|table| table.is_empty())
}

/// Calls `toml_edit::Table::remove` on the top table.
#[verifier::external_body]
pub(crate) fn drop_section(document: &mut toml_edit::DocumentMut, section: &str)
    requires
        is_faithful(*old(document)),
    ensures
        document_contents(*final(document)) == document_contents(*old(document)).remove(section@),
        is_faithful(*final(document)),
{
    document.remove(section);
}

} // verus!
