//! How a field of the configuration file is set and removed.
use vstd::prelude::*;

use super::document::{
    EntryModel, ValueModel, add_section, document_contents, document_text, drop_section, filled,
    form_in, has_section, is_empty_section, is_faithful, parse_document, put_field, put_number,
    reads_back, section_form, take_field, toml_contents, written_document,
};
use super::{
    ConfigModel, ConfiguredPaths, Field, FieldValue, FileConfig, ResolvedConfig, SectionForm,
    boolean_of, default_config, field_of, field_text, integer_of, loaded, parse_boolean,
    parse_field, parse_integer, resolve_document, resolved,
};
use crate::text::{is_canonical_number, join2, join3, same_text, texts};

verus! {

/// The value that arguments give to a field.
pub open spec fn value_of(key: Seq<char>, field: Field, arguments: Seq<Seq<char>>) -> Result<
    ValueModel,
    Seq<char>,
> {
    if field == Field::Packs {
        Ok(ValueModel::List(arguments))
    } else if arguments.len() != 1 {
        Err(key + " requires 1 value(s)"@)
    } else {
        match field {
            Field::ArchivePath => Ok(ValueModel::Text(arguments[0])),
            Field::PruningEnabled | Field::ArchiveEnabled => match boolean_of(key, arguments[0]) {
                Ok(value) => Ok(ValueModel::Boolean(value)),
                Err(fault) => Err(fault),
            },
            _ => match integer_of(key, arguments[0]) {
                Ok(value) => Ok(ValueModel::Integer(value)),
                Err(fault) => Err(fault),
            },
        }
    }
}

/// The section with a field set; a new table where there is none.
pub open spec fn with_field(
    contents: Map<Seq<char>, EntryModel>,
    section: Seq<char>,
    name: Seq<char>,
    value: ValueModel,
) -> EntryModel {
    if contents.dom().contains(section) {
        contents[section].with_fields(contents[section].fields().insert(name, value))
    } else {
        EntryModel::Table(Map::empty().insert(name, value))
    }
}

/// What a document holds after a field was set, or why the field cannot be set.
pub open spec fn edited(
    contents: Map<Seq<char>, EntryModel>,
    key: Seq<char>,
    arguments: Seq<Seq<char>>,
) -> Result<Map<Seq<char>, EntryModel>, Seq<char>> {
    match field_of(key) {
        None => Err("unknown configuration field "@ + key),
        Some(field) => if field != Field::Version && form_in(contents, field.section())
            == SectionForm::Other {
            Err("configuration section "@ + field.section() + " is not a table"@)
        } else {
            match value_of(key, field, arguments) {
                Err(fault) => Err(fault),
                Ok(value) => if field == Field::Version {
                    Ok(contents.insert(field.name(), EntryModel::Value(value)))
                } else {
                    Ok(
                        contents.insert(
                            field.section(),
                            with_field(contents, field.section(), field.name(), value),
                        ),
                    )
                },
            }
        },
    }
}

/// The value of a field in a document.
pub open spec fn value_in(contents: Map<Seq<char>, EntryModel>, field: Field) -> Option<ValueModel> {
    if field == Field::Version {
        if contents.dom().contains(field.name()) {
            match contents[field.name()] {
                EntryModel::Value(value) => Some(value),
                _ => None,
            }
        } else {
            None
        }
    } else if has_section(contents, field.section()) && contents[field.section()].fields().dom().contains(
        field.name(),
    ) {
        Some(contents[field.section()].fields()[field.name()])
    } else {
        None
    }
}

/// What a document holds after a field was removed, or why it cannot be removed. A section that
/// holds nothing else goes with it.
pub open spec fn removed(contents: Map<Seq<char>, EntryModel>, key: Seq<char>) -> Result<
    Map<Seq<char>, EntryModel>,
    Seq<char>,
> {
    match field_of(key) {
        None => Err("unknown configuration field "@ + key),
        Some(field) => if value_in(contents, field) is None {
            Err("configuration field "@ + key + " is not set"@)
        } else {
            let entry = contents[field.section()];
            let left = entry.fields().remove(field.name());
            if left == Map::<Seq<char>, ValueModel>::empty() {
                Ok(contents.remove(field.section()))
            } else {
                Ok(contents.insert(field.section(), entry.with_fields(left)))
            }
        },
    }
}

/// The result is the text of a document that holds what it should, or the error.
pub open spec fn is_written(
    result: Result<String, String>,
    outcome: Result<Map<Seq<char>, EntryModel>, Seq<char>>,
) -> bool {
    match outcome {
        Err(fault) => result matches Err(error) && error@ == fault,
        Ok(contents) => result matches Ok(text) && reads_back(text@, contents) && exists|
            document: toml_edit::DocumentMut,
        |
            #[trigger] document_contents(document) == contents && document_text(document) == text@,
    }
}

fn read_value(key: &str, field: Field, arguments: &[String]) -> (result: Result<FieldValue, String>)
    ensures
        match value_of(key@, field, texts(arguments@)) {
            Ok(model) => result matches Ok(value) && value@ == model,
            Err(fault) => result matches Err(error) && error@ == fault,
        },
{
    if field == Field::Packs {
        let mut values: Vec<String> = Vec::new();
        let mut i: usize = 0;
        while i < arguments.len()
            invariant
                i <= arguments@.len(),
                values@.len() == i,
                forall|j: int| 0 <= j < i ==> #[trigger] values@[j]@ == arguments@[j]@,
            decreases arguments@.len() - i,
        {
            values.push(arguments[i].clone());
            i += 1;
        }
        assert(texts(values@) =~= texts(arguments@));
        return Ok(FieldValue::List(values));
    }
    if arguments.len() != 1 {
        return Err(join2(key, " requires 1 value(s)"));
    }
    let argument = &arguments[0];
    assert(texts(arguments@)[0] == argument@);
    match field {
        Field::ArchivePath => Ok(FieldValue::Text(argument.clone())),
        Field::PruningEnabled | Field::ArchiveEnabled => match parse_boolean(
            key,
            argument.as_str(),
        ) {
            Ok(value) => Ok(FieldValue::Boolean(value)),
            Err(error) => Err(error),
        },
        _ => match parse_integer(key, argument.as_str()) {
            Ok(value) => Ok(FieldValue::Integer(value)),
            Err(error) => Err(error),
        },
    }
}

/// Set a field of a document.
pub(crate) fn edit_document(
    document: &mut toml_edit::DocumentMut,
    key: &str,
    arguments: &[String],
) -> (result: Result<(), String>)
    requires
        is_faithful(*old(document)),
    ensures
        match edited(document_contents(*old(document)), key@, texts(arguments@)) {
            Ok(contents) => result is Ok && document_contents(*final(document)) == contents
                && is_faithful(*final(document)),
            Err(fault) => result matches Err(error) && error@ == fault,
        },
{
    let field = parse_field(key)?;
    let (section, name) = field.place();
    let ghost before = document_contents(*document);
    let form = section_form(document, section);
    if field != Field::Version && form == SectionForm::Other {
        return Err(join3("configuration section ", section, " is not a table"));
    }
    let value = read_value(key, field, arguments)?;
    if field == Field::Version {
        if let FieldValue::Integer(number) = value {
            put_number(document, name, number);
        }
        return Ok(());
    }
    if form == SectionForm::Missing {
        add_section(document, section);
    }
    put_field(document, section, name, &value);
    assert(document_contents(*document) =~= before.insert(
        field.section(),
        with_field(before, field.section(), field.name(), value@),
    ));
    Ok(())
}

/// Remove a field of a document.
pub(crate) fn remove_from_document(document: &mut toml_edit::DocumentMut, key: &str) -> (result:
    Result<(), String>)
    requires
        is_faithful(*old(document)),
        key@ != "version"@,
    ensures
        match removed(document_contents(*old(document)), key@) {
            Ok(contents) => result is Ok && document_contents(*final(document)) == contents
                && is_faithful(*final(document)),
            Err(fault) => result matches Err(error) && error@ == fault,
        },
{
    let field = parse_field(key)?;
    let (section, name) = field.place();
    let ghost before = document_contents(*document);
    let form = section_form(document, section);
    if form == SectionForm::Missing || form == SectionForm::Other {
        return Err(join3("configuration field ", key, " is not set"));
    }
    if !take_field(document, section, name) {
        return Err(join3("configuration field ", key, " is not set"));
    }
    if is_empty_section(document, section) {
        drop_section(document, section);
        assert(document_contents(*document) =~= before.remove(field.section()));
    }
    Ok(())
}

/// Set a field of the configuration that a text holds, and write it again.
///
/// # Errors
///
/// Returns an error when the text is not TOML, when there is no such field, when its section is not
/// one, when it takes another number of values, or when a value is not of its kind.
pub fn edit_text(text: &str, key: &str, arguments: &[String]) -> (result: Result<String, String>)
    ensures
        match toml_contents(text@) {
            Err(fault) => result matches Err(error) && error@ == fault,
            Ok(contents) => is_written(result, edited(contents, key@, texts(arguments@))),
        },
{
    let mut document = parse_document(text)?;
    edit_document(&mut document, key, arguments)?;
    Ok(written_document(&document))
}

/// Remove a field of the configuration that a text holds, and write it again.
///
/// # Errors
///
/// Returns an error when the field is the version, when the text is not TOML, and when there is no
/// such field or it is not set.
pub fn remove_text(text: &str, key: &str) -> (result: Result<String, String>)
    ensures
        if key@ == "version"@ {
            result matches Err(error) && error@ == "version cannot be unset"@
        } else {
            match toml_contents(text@) {
                Err(fault) => result matches Err(error) && error@ == fault,
                Ok(contents) => is_written(result, removed(contents, key@)),
            }
        },
{
    if same_text(key, "version") {
        return Err("version cannot be unset".to_owned());
    }
    let mut document = parse_document(text)?;
    remove_from_document(&mut document, key)?;
    Ok(written_document(&document))
}

/// The document to be changed: what the configuration file holds, or the version alone where there
/// is none.
pub open spec fn editable(body: Result<Option<String>, String>, path: Seq<char>) -> Result<
    Map<Seq<char>, EntryModel>,
    Seq<char>,
> {
    match body {
        Err(error) => Err(error@),
        Ok(Some(text)) => match toml_contents(text@) {
            Ok(contents) => Ok(contents),
            Err(fault) => Err("invalid "@ + path + ": "@ + fault),
        },
        Ok(None) => match toml_contents("version = 1\n"@) {
            Ok(contents) => Ok(contents),
            Err(fault) => Err("could not create default configuration: "@ + fault),
        },
    }
}

/// Read the document to be changed.
pub(crate) fn editable_document(body: &Result<Option<String>, String>, path: &str) -> (result:
    Result<toml_edit::DocumentMut, String>)
    ensures
        match editable(*body, path@) {
            Ok(contents) => result matches Ok(document) && document_contents(document) == contents
                && is_faithful(document),
            Err(fault) => result matches Err(error) && error@ == fault,
        },
{
    match body {
        Err(error) => Err(error.clone()),
        Ok(Some(text)) => match parse_document(text.as_str()) {
            Ok(document) => Ok(document),
            Err(error) => Err(crate::text::join4("invalid ", path, ": ", error.as_str())),
        },
        Ok(None) => match parse_document("version = 1\n") {
            Ok(document) => Ok(document),
            Err(error) => Err(join2("could not create default configuration: ", error.as_str())),
        },
    }
}

/// The configuration that a changed file gives, if it can be used.
pub open spec fn accepted(file: Result<FileConfig, String>, paths: ConfiguredPaths) -> Result<
    ConfigModel,
    Seq<char>,
> {
    match file {
        Err(reason) => Err(reason@),
        Ok(read) => resolved(read, paths),
    }
}

/// Accept a changed configuration: its text is given back to be stored only if it can be used.
///
/// # Errors
///
/// Returns an error when the changed file cannot be read as a configuration or used as one.
pub fn accept(text: String, file: &Result<FileConfig, String>, paths: ConfiguredPaths) -> (result:
    Result<(ResolvedConfig, String), String>)
    ensures
        match accepted(*file, paths) {
            Ok(model) => result matches Ok((config, stored)) && config@ == model && stored == text,
            Err(fault) => result matches Err(error) && error@ == fault,
        },
{
    match file {
        Err(reason) => Err(reason.clone()),
        Ok(read) => {
            let config = resolve_document(read, paths)?;
            Ok((config, text))
        },
    }
}

/// A truth value is what a file says of a field.
pub open spec fn says_truth(read: Option<bool>, value: Option<ValueModel>) -> bool {
    match read {
        None => value is None,
        Some(given) => value == Some(ValueModel::Boolean(given)),
    }
}

/// A number is what a file says of a field.
pub open spec fn says_number(read: Option<usize>, value: Option<ValueModel>) -> bool {
    match read {
        None => value is None,
        Some(given) => value matches Some(ValueModel::Integer(number)) && number == given,
    }
}

/// The file is read from a document: each of its fields is what the document says.
pub open spec fn is_read_from(file: FileConfig, contents: Map<Seq<char>, EntryModel>) -> bool {
    &&& value_in(contents, Field::Version) matches Some(ValueModel::Integer(number)) && number
        == file.version
    &&& says_truth(file.pruning_enabled, value_in(contents, Field::PruningEnabled))
    &&& says_number(file.cap_bytes, value_in(contents, Field::CapBytes))
    &&& says_number(file.recovery_cap_bytes, value_in(contents, Field::RecoveryCapBytes))
    &&& says_number(file.recovery_cap_lines, value_in(contents, Field::RecoveryCapLines))
    &&& says_truth(file.archive_enabled, value_in(contents, Field::ArchiveEnabled))
    &&& match file.archive_path {
        None => value_in(contents, Field::ArchivePath) is None,
        Some(path) => value_in(contents, Field::ArchivePath) == Some(ValueModel::Text(path@)),
    }
    &&& match file.packs {
        None => value_in(contents, Field::Packs) is None,
        Some(packs) => value_in(contents, Field::Packs) == Some(ValueModel::List(texts(packs@))),
    }
}

proof fn lemma_filled_says_the_same(
    read: Map<Seq<char>, EntryModel>,
    contents: Map<Seq<char>, EntryModel>,
    field: Field,
)
    requires
        filled(read) == filled(contents),
    ensures
        value_in(read, field) == value_in(contents, field),
{
    let name = if field == Field::Version {
        field.name()
    } else {
        field.section()
    };
    let empty = EntryModel::Table(Map::<Seq<char>, ValueModel>::empty());
    assert(filled(read).dom().contains(name) == (read.dom().contains(name) && read[name] != empty));
    assert(filled(contents).dom().contains(name) == (contents.dom().contains(name)
        && contents[name] != empty));
    if filled(read).dom().contains(name) {
        assert(filled(read)[name] == read[name]);
        assert(filled(contents)[name] == contents[name]);
    }
}

proof fn lemma_places_differ(first: Field, second: Field)
    requires
        first != second,
    ensures
        first.section() != second.section() || first.name() != second.name(),
        first.section() != "version"@,
        first.section() != ""@ || first == Field::Version,
{
    reveal_strlit("");
    reveal_strlit("version");
    reveal_strlit("pruning");
    reveal_strlit("output");
    reveal_strlit("archive");
    reveal_strlit("rules");
    reveal_strlit("enabled");
    reveal_strlit("path");
    reveal_strlit("cap_bytes");
    reveal_strlit("recovery_cap_bytes");
    reveal_strlit("recovery_cap_lines");
    reveal_strlit("packs");
    assert(""@.len() == 0);
    assert("version"@.len() == 7 && "version"@[0] == 'v');
    assert("pruning"@.len() == 7 && "pruning"@[0] == 'p');
    assert("output"@.len() == 6);
    assert("archive"@.len() == 7 && "archive"@[0] == 'a');
    assert("rules"@.len() == 5);
    assert("enabled"@[0] == 'e');
    assert("path"@[0] == 'p');
    assert("cap_bytes"@.len() == 9);
    assert("recovery_cap_bytes"@.len() == 18 && "recovery_cap_bytes"@[13] == 'b');
    assert("recovery_cap_lines"@.len() == 18 && "recovery_cap_lines"@[13] == 'l');
}

/// Setting a field changes that field alone, to the value that the arguments give.
pub proof fn lemma_set_changes_one_field(
    contents: Map<Seq<char>, EntryModel>,
    key: Seq<char>,
    arguments: Seq<Seq<char>>,
    other: Field,
)
    requires
        edited(contents, key, arguments) is Ok,
    ensures
        ({
            let field = field_of(key)->0;
            let after = edited(contents, key, arguments)->Ok_0;
            &&& value_in(after, field) == Some(value_of(key, field, arguments)->Ok_0)
            &&& other != field ==> value_in(after, other) == value_in(contents, other)
        }),
{
    let field = field_of(key)->0;
    if other != field {
        lemma_places_differ(field, other);
        lemma_places_differ(other, field);
    }
}

/// Removing a field leaves it unset, and changes no other field.
pub proof fn lemma_unset_removes_one_field(
    contents: Map<Seq<char>, EntryModel>,
    key: Seq<char>,
    other: Field,
)
    requires
        key != "version"@,
        removed(contents, key) is Ok,
    ensures
        ({
            let field = field_of(key)->0;
            let after = removed(contents, key)->Ok_0;
            &&& value_in(after, field) is None
            &&& other != field ==> value_in(after, other) == value_in(contents, other)
            &&& removed(after, key) == Err::<Map<Seq<char>, EntryModel>, Seq<char>>(
                "configuration field "@ + key + " is not set"@,
            )
        }),
{
    let field = field_of(key)->0;
    let entry = contents[field.section()];
    let left = entry.fields().remove(field.name());
    if other != field {
        lemma_places_differ(field, other);
        lemma_places_differ(other, field);
        if left == Map::<Seq<char>, ValueModel>::empty() && other != Field::Version
            && other.section() == field.section() {
            assert(!left.dom().contains(other.name()));
        }
    }
}

/// After a field was set, what is stored is loaded with the value that was given: the field shows
/// the argument, a path or a list of packs is read as it was given, and every other field says what
/// it said before.
pub proof fn lemma_set_then_load(
    contents: Map<Seq<char>, EntryModel>,
    key: Seq<char>,
    arguments: Seq<Seq<char>>,
    stored: Seq<char>,
    file: FileConfig,
    paths: ConfiguredPaths,
    config: ConfigModel,
    other: Field,
)
    requires
        edited(contents, key, arguments) is Ok,
        reads_back(stored, edited(contents, key, arguments)->Ok_0),
        is_read_from(file, toml_contents(stored)->Ok_0),
        resolved(file, paths) == Ok::<ConfigModel, Seq<char>>(config),
    ensures
        ({
            let field = field_of(key)->0;
            let read = toml_contents(stored)->Ok_0;
            &&& match field {
                Field::ArchivePath => file.archive_path matches Some(path) && path@ == arguments[0],
                Field::Packs => file.packs matches Some(packs) && texts(packs@) == arguments,
                _ => field_text(config, key) == Ok::<Seq<char>, Seq<char>>(arguments[0]),
            }
            &&& other != field ==> value_in(read, other) == value_in(contents, other)
        }),
{
    let field = field_of(key)->0;
    let after = edited(contents, key, arguments)->Ok_0;
    let read = toml_contents(stored)->Ok_0;
    lemma_set_changes_one_field(contents, key, arguments, other);
    lemma_filled_says_the_same(read, after, field);
    lemma_filled_says_the_same(read, after, other);
    if arguments.len() == 1 && is_canonical_number(arguments[0]) {
        crate::text::lemma_number_round_trip(arguments[0]);
    }
}

/// After a field was removed, what is stored is loaded with its default, every other field says what
/// it said before, and the field cannot be removed again.
pub proof fn lemma_unset_then_load(
    contents: Map<Seq<char>, EntryModel>,
    key: Seq<char>,
    stored: Seq<char>,
    file: FileConfig,
    paths: ConfiguredPaths,
    config: ConfigModel,
    other: Field,
)
    requires
        key != "version"@,
        removed(contents, key) is Ok,
        reads_back(stored, removed(contents, key)->Ok_0),
        is_read_from(file, toml_contents(stored)->Ok_0),
        resolved(file, paths) == Ok::<ConfigModel, Seq<char>>(config),
        file.packs is None ==> paths.packs@.len() == 0,
    ensures
        ({
            let field = field_of(key)->0;
            let read = toml_contents(stored)->Ok_0;
            &&& paths.default_archive matches Ok(path) ==> field_text(config, key) == field_text(
                default_config(path@),
                key,
            )
            &&& other != field ==> value_in(read, other) == value_in(contents, other)
            &&& removed(read, key) == Err::<Map<Seq<char>, EntryModel>, Seq<char>>(
                "configuration field "@ + key + " is not set"@,
            )
        }),
{
    let field = field_of(key)->0;
    let after = removed(contents, key)->Ok_0;
    let read = toml_contents(stored)->Ok_0;
    lemma_unset_removes_one_field(contents, key, other);
    lemma_filled_says_the_same(read, after, field);
    lemma_filled_says_the_same(read, after, other);
}

/// A configuration that was accepted is the one that is loaded from the stored file.
pub proof fn lemma_accepted_is_loaded(
    file: FileConfig,
    paths: ConfiguredPaths,
    config: ConfigModel,
)
    requires
        accepted(Ok(file), paths) == Ok::<ConfigModel, Seq<char>>(config),
    ensures
        loaded(Ok(Some(file)), paths) == Ok::<ConfigModel, Seq<char>>(config),
{
}

} // verus!
