//! Constraints on manifests and rules.
use vstd::prelude::*;
use vstd::utf8::encode_utf8;

use super::model::{
    Action, CommandMatcher, LinePattern, OutputPolicy, PackManifest, Reducer, ReducerModel,
    Rule, RuleModel, SOURCE_SCHEMA_VERSION,
};
use crate::text::{
    decimal, digits, join2, join3, join4, join5, list_contains, reports, same_text, same_texts, texts,
};

verus! {

/// The largest number of rules in a pack.
pub const MAX_RULES: usize = 10_000;

/// The largest source file of a pack.
pub const MAX_SOURCE_FILE_BYTES: usize = 65_536;

/// The largest source pack.
pub const MAX_SOURCE_BYTES: usize = 33_554_432;

/// The largest compiled pack.
pub const MAX_COMPILED_BYTES: u64 = 67_108_864;

/// The most memory that one stream may retain.
pub const MAX_STREAM_MEMORY_BYTES: usize = 4_194_304;

/// A lower-case ASCII letter or a digit.
pub open spec fn is_word_byte(byte: u8) -> bool {
    97 <= byte <= 122 || 48 <= byte <= 57
}

/// A byte that separates the words of an identifier.
pub open spec fn is_separator_byte(byte: u8, slash: bool) -> bool {
    byte == 46 || byte == 95 || byte == 45 || (slash && byte == 47)
}

/// The bytes are words between single separators.
pub open spec fn is_identifier(id: Seq<u8>, slash: bool) -> bool {
    &&& id.len() > 0
    &&& forall|i: int|
        0 <= i < id.len() ==> is_word_byte(#[trigger] id[i]) || is_separator_byte(id[i], slash)
    &&& is_word_byte(id[0])
    &&& is_word_byte(id.last())
}

/// Two separators stand side by side.
pub open spec fn has_adjacent_separators(id: Seq<u8>, slash: bool) -> bool {
    exists|i: int|
        0 <= i < id.len() - 1 && #[trigger] is_separator_byte(id[i], slash) && is_separator_byte(
            id[i + 1],
            slash,
        )
}

/// Every byte is ASCII.
pub open spec fn all_ascii(value: Seq<u8>) -> bool {
    forall|i: int| 0 <= i < value.len() ==> #[trigger] value[i] < 128
}

/// What is wrong with an identifier.
pub open spec fn identifier_fault(
    id: Seq<char>,
    max: nat,
    slash: bool,
    label: Seq<char>,
) -> Option<Seq<char>> {
    let bytes = encode_utf8(id);
    if bytes.len() == 0 || bytes.len() > max || !all_ascii(bytes) {
        Some(label + " must contain 1 through "@ + digits(max) + " ASCII bytes"@)
    } else if !is_identifier(bytes, slash) {
        Some("invalid "@ + label + ": "@ + id)
    } else if has_adjacent_separators(bytes, slash) {
        Some(label + " has consecutive separators: "@ + id)
    } else {
        None
    }
}

fn word_byte(byte: u8) -> (found: bool)
    ensures
        found == is_word_byte(byte),
{
    (97 <= byte && byte <= 122) || (48 <= byte && byte <= 57)
}

fn separator_byte(byte: u8, slash: bool) -> (found: bool)
    ensures
        found == is_separator_byte(byte, slash),
{
    byte == 46 || byte == 95 || byte == 45 || (slash && byte == 47)
}

/// Whether every byte is ASCII.
pub fn only_ascii(value: &[u8]) -> (found: bool)
    ensures
        found == all_ascii(value@),
{
    let mut i: usize = 0;
    while i < value.len()
        invariant
            i <= value.len(),
            forall|j: int| 0 <= j < i ==> #[trigger] value@[j] < 128,
        decreases value.len() - i,
    {
        if value[i] >= 128 {
            return false;
        }
        i += 1;
    }
    true
}

/// Whether the bytes are words between separators.
pub fn words_and_separators(id: &[u8], slash: bool) -> (found: bool)
    ensures
        found == is_identifier(id@, slash),
{
    if id.len() == 0 || !word_byte(id[0]) || !word_byte(id[id.len() - 1]) {
        return false;
    }
    let mut i: usize = 0;
    while i < id.len()
        invariant
            i <= id.len(),
            forall|j: int|
                0 <= j < i ==> is_word_byte(#[trigger] id@[j]) || is_separator_byte(id@[j], slash),
        decreases id.len() - i,
    {
        if !word_byte(id[i]) && !separator_byte(id[i], slash) {
            assert(!is_word_byte(id@[i as int]));
            return false;
        }
        i += 1;
    }
    true
}

/// Whether two separators stand side by side.
pub fn adjacent_separators(id: &[u8], slash: bool) -> (found: bool)
    ensures
        found == has_adjacent_separators(id@, slash),
{
    if id.len() == 0 {
        return false;
    }
    let mut i: usize = 0;
    while i < id.len() - 1
        invariant
            i <= id.len() - 1,
            forall|j: int|
                0 <= j < i ==> !(#[trigger] is_separator_byte(id@[j], slash) && is_separator_byte(
                    id@[j + 1],
                    slash,
                )),
        decreases id.len() - i,
    {
        if separator_byte(id[i], slash) && separator_byte(id[i + 1], slash) {
            assert(is_separator_byte(id@[i as int], slash));
            return true;
        }
        i += 1;
    }
    false
}

fn validate_identifier(id: &str, max: usize, slash: bool, label: &str) -> (result: Result<
    (),
    String,
>)
    ensures
        reports(result, identifier_fault(id@, max as nat, slash, label@)),
{
    let bytes: &[u8] = id.as_bytes();
    if bytes.len() == 0 || bytes.len() > max || !only_ascii(bytes) {
        return Err(
            join4(label, " must contain 1 through ", decimal(max as u64).as_str(), " ASCII bytes"),
        );
    }
    if !words_and_separators(bytes, slash) {
        return Err(join4("invalid ", label, ": ", id));
    }
    if adjacent_separators(bytes, slash) {
        return Err(join3(label, " has consecutive separators: ", id));
    }
    Ok(())
}

fn validate_pack_id(id: &str) -> (result: Result<(), String>)
    ensures
        reports(result, identifier_fault(id@, 128, false, "pack id"@)),
{
    validate_identifier(id, 128, false, "pack id")
}

fn validate_rule_id(id: &str) -> (result: Result<(), String>)
    ensures
        reports(result, identifier_fault(id@, 128, true, "rule id"@)),
{
    validate_identifier(id, 128, true, "rule id")
}

/// The parts of a path between its slashes.
pub open spec fn components(path: Seq<char>) -> Seq<Seq<char>>
    decreases path.len(),
{
    if path.len() == 0 {
        seq![Seq::<char>::empty()]
    } else {
        let rest = components(path.drop_last());
        if path.last() == '/' {
            rest.push(Seq::<char>::empty())
        } else {
            rest.update(rest.len() - 1, rest.last().push(path.last()))
        }
    }
}

/// A path component that names nothing or another place.
pub open spec fn is_bad_component(component: Seq<char>) -> bool {
    component.len() == 0 || component == seq!['.'] || component == seq!['.', '.']
}

/// The path leads to a JSON file below the pack.
pub open spec fn is_rule_path(path: Seq<char>) -> bool {
    &&& path.len() > 0
    &&& path[0] != '/'
    &&& !path.contains('\\')
    &&& !path.contains('\0')
    &&& crate::text::closes_with(path, ".json"@)
    &&& forall|i: int|
        0 <= i < components(path).len() ==> !is_bad_component(#[trigger] components(path)[i])
}

fn contains_char(characters: &Vec<char>, c: char) -> (found: bool)
    ensures
        found == characters@.contains(c),
{
    let mut i: usize = 0;
    while i < characters.len()
        invariant
            i <= characters.len(),
            forall|j: int| 0 <= j < i ==> characters@[j] != c,
        decreases characters.len() - i,
    {
        if characters[i] == c {
            return true;
        }
        i += 1;
    }
    false
}

spec fn char_lists(lists: Seq<Vec<char>>) -> Seq<Seq<char>> {
    lists.map_values(|list: Vec<char>| list@)
}

fn split_components(path: &Vec<char>) -> (parts: Vec<Vec<char>>)
    ensures
        char_lists(parts@) == components(path@),
        parts@.len() > 0,
{
    let mut parts: Vec<Vec<char>> = Vec::new();
    let mut current: Vec<char> = Vec::new();
    let mut i: usize = 0;
    assert(components(path@.take(0)) =~= char_lists(parts@).push(current@));
    while i < path.len()
        invariant
            i <= path.len(),
            components(path@.take(i as int)) == char_lists(parts@).push(current@),
        decreases path.len() - i,
    {
        proof {
            assert(path@.take(i + 1).drop_last() =~= path@.take(i as int));
            assert(path@.take(i + 1).last() == path@[i as int]);
        }
        let ghost before = char_lists(parts@).push(current@);
        let ghost closed = parts@;
        if path[i] == '/' {
            parts.push(current);
            current = Vec::new();
            assert(char_lists(parts@) =~= before);
        } else {
            current.push(path[i]);
            assert(char_lists(parts@).push(current@) =~= before.update(
                before.len() - 1,
                before.last().push(path@[i as int]),
            ));
        }
        i += 1;
    }
    let ghost closed = parts@;
    parts.push(current);
    assert(char_lists(parts@) =~= char_lists(closed).push(current@));
    assert(path@.take(path@.len() as int) =~= path@);
    parts
}

fn bad_component(component: &Vec<char>) -> (found: bool)
    ensures
        found == is_bad_component(component@),
{
    let found = component.len() == 0 || (component.len() == 1 && component[0] == '.') || (
    component.len() == 2 && component[0] == '.' && component[1] == '.');
    proof {
        assert(component@ == seq!['.'] <==> component@.len() == 1 && component@[0] == '.') by {
            if component@.len() == 1 && component@[0] == '.' {
                assert(component@ =~= seq!['.']);
            }
        }
        assert(component@ == seq!['.', '.'] <==> component@.len() == 2 && component@[0] == '.'
            && component@[1] == '.') by {
            if component@.len() == 2 && component@[0] == '.' && component@[1] == '.' {
                assert(component@ =~= seq!['.', '.']);
            }
        }
    }
    found
}

fn rule_path(path: &str) -> (found: bool)
    ensures
        found == is_rule_path(path@),
{
    let characters = crate::text::chars(path);
    if characters.len() == 0 || characters[0] == '/' || contains_char(&characters, '\\')
        || contains_char(&characters, '\0') || !crate::text::ends_with(path, ".json") {
        return false;
    }
    let parts = split_components(&characters);
    let mut i: usize = 0;
    while i < parts.len()
        invariant
            i <= parts.len(),
            char_lists(parts@) == components(path@),
            forall|j: int| 0 <= j < i ==> !is_bad_component(#[trigger] components(path@)[j]),
        decreases parts.len() - i,
    {
        assert(components(path@)[i as int] == parts@[i as int]@);
        if bad_component(&parts[i]) {
            return false;
        }
        i += 1;
    }
    assert(components(path@).len() == parts@.len());
    true
}

fn validate_rule_path(path: &str) -> (result: Result<(), String>)
    ensures
        reports(
            result,
            if is_rule_path(path@) {
                None
            } else {
                Some("invalid rule path: "@ + path@)
            },
        ),
{
    if rule_path(path) {
        Ok(())
    } else {
        Err(join2("invalid rule path: ", path))
    }
}

/// What is wrong with the first `count` paths of a manifest.
pub open spec fn paths_fault(paths: Seq<Seq<char>>, count: nat) -> Option<Seq<char>>
    decreases count,
{
    if count == 0 {
        None
    } else {
        let path = paths[count - 1];
        match paths_fault(paths, (count - 1) as nat) {
            Some(fault) => Some(fault),
            None => if !is_rule_path(path) {
                Some("invalid rule path: "@ + path)
            } else if paths.take(count - 1).contains(path) {
                Some("duplicate rule path: "@ + path)
            } else {
                None
            },
        }
    }
}

/// What is wrong with a manifest.
pub open spec fn manifest_fault(manifest: PackManifest) -> Option<Seq<char>> {
    if manifest.schema_version != SOURCE_SCHEMA_VERSION {
        Some("schema_version must be 1, got "@ + digits(manifest.schema_version as nat))
    } else {
        match identifier_fault(manifest.id@, 128, false, "pack id"@) {
            Some(fault) => Some(fault),
            None => if manifest.rules@.len() == 0 || manifest.rules@.len() > MAX_RULES {
                Some("rules must contain between 1 and 10000 paths"@)
            } else {
                paths_fault(texts(manifest.rules@), manifest.rules@.len())
            },
        }
    }
}

/// Validate the fields of a manifest and its rule paths.
///
/// # Errors
///
/// Returns an error when a version, ID, path, count, or uniqueness constraint fails.
pub fn validate_manifest(manifest: &PackManifest) -> (result: Result<(), String>)
    ensures
        reports(result, manifest_fault(*manifest)),
{
    if manifest.schema_version != SOURCE_SCHEMA_VERSION {
        return Err(
            join2(
                "schema_version must be 1, got ",
                decimal(manifest.schema_version as u64).as_str(),
            ),
        );
    }
    validate_pack_id(manifest.id.as_str())?;
    if manifest.rules.len() == 0 || manifest.rules.len() > MAX_RULES {
        return Err("rules must contain between 1 and 10000 paths".to_owned());
    }
    let ghost paths = texts(manifest.rules@);
    let mut i: usize = 0;
    while i < manifest.rules.len()
        invariant
            i <= manifest.rules.len(),
            paths == texts(manifest.rules@),
            paths_fault(paths, i as nat) is None,
            manifest_fault(*manifest) == paths_fault(paths, paths.len()),
        decreases manifest.rules.len() - i,
    {
        let path = manifest.rules[i].as_str();
        assert(paths[i as int] == path@);
        let earlier: &[String] = &manifest.rules.as_slice()[0..i];
        assert(texts(earlier@) =~= paths.take(i as int));
        if let Err(error) = validate_rule_path(path) {
            proof {
                lemma_paths_fault_stays(paths, i as nat + 1, paths.len());
            }
            return Err(error);
        }
        if list_contains(earlier, path) {
            proof {
                lemma_paths_fault_stays(paths, i as nat + 1, paths.len());
            }
            return Err(join2("duplicate rule path: ", path));
        }
        i += 1;
    }
    Ok(())
}

proof fn lemma_paths_fault_stays(paths: Seq<Seq<char>>, count: nat, total: nat)
    requires
        count <= total,
        paths_fault(paths, count) is Some,
    ensures
        paths_fault(paths, total) == paths_fault(paths, count),
    decreases total,
{
    if count < total {
        lemma_paths_fault_stays(paths, count, (total - 1) as nat);
    }
}

/// A byte that no program name holds.
pub open spec fn is_shell_byte(byte: u8) -> bool {
    ||| super::super::reducers::evidence::is_space(byte)
    ||| byte == 47 || byte == 92 || byte == 0 || byte == 124 || byte == 38 || byte == 59
    ||| byte == 60 || byte == 62 || byte == 40 || byte == 41 || byte == 96 || byte == 36
    ||| byte == 35
}

/// The bytes name a program.
pub open spec fn is_program_name(program: Seq<u8>) -> bool {
    &&& 0 < program.len() <= 128
    &&& all_ascii(program)
    &&& forall|i: int| 0 <= i < program.len() ==> !is_shell_byte(#[trigger] program[i])
}

fn shell_byte(byte: u8) -> (found: bool)
    ensures
        found == is_shell_byte(byte),
{
    byte == 32 || byte == 9 || byte == 10 || byte == 12 || byte == 13 || byte == 47 || byte == 92
        || byte == 0 || byte == 124 || byte == 38 || byte == 59 || byte == 60 || byte == 62 || byte
        == 40 || byte == 41 || byte == 96 || byte == 36 || byte == 35
}

/// Whether the bytes name a program.
pub fn program_name(program: &[u8]) -> (found: bool)
    ensures
        found == is_program_name(program@),
{
    if program.len() == 0 || program.len() > 128 || !only_ascii(program) {
        return false;
    }
    let mut i: usize = 0;
    while i < program.len()
        invariant
            i <= program.len(),
            forall|j: int| 0 <= j < i ==> !is_shell_byte(#[trigger] program@[j]),
        decreases program.len() - i,
    {
        if shell_byte(program[i]) {
            assert(is_shell_byte(program@[i as int]));
            return false;
        }
        i += 1;
    }
    true
}

/// What is wrong with the first `count` program names of a matcher.
pub open spec fn programs_fault(programs: Seq<Seq<char>>, count: nat) -> Option<Seq<char>>
    decreases count,
{
    if count == 0 {
        None
    } else {
        let program = programs[count - 1];
        match programs_fault(programs, (count - 1) as nat) {
            Some(fault) => Some(fault),
            None => if !is_program_name(encode_utf8(program)) {
                Some("invalid program name: "@ + program)
            } else if programs.take(count - 1).contains(program) {
                Some("duplicate program name: "@ + program)
            } else {
                None
            },
        }
    }
}

/// What is wrong with the first `count` tokens of a list.
pub open spec fn token_list_fault(label: Seq<char>, tokens: Seq<Seq<char>>, count: nat) -> Option<
    Seq<char>,
>
    decreases count,
{
    if count == 0 {
        None
    } else {
        let token = tokens[count - 1];
        match token_list_fault(label, tokens, (count - 1) as nat) {
            Some(fault) => Some(fault),
            None => if token.len() > 1_024 || token.contains('\0') {
                Some("invalid "@ + label + " token"@)
            } else if tokens.take(count - 1).contains(token) {
                Some("duplicate "@ + label + " token: "@ + token)
            } else {
                None
            },
        }
    }
}

/// What is wrong with a list of tokens.
pub open spec fn tokens_fault(label: Seq<char>, tokens: Seq<Seq<char>>) -> Option<Seq<char>> {
    if tokens.len() > 64 {
        Some(label + " must not contain more than 64 tokens"@)
    } else {
        token_list_fault(label, tokens, tokens.len())
    }
}

/// What is wrong with a matcher.
pub open spec fn matcher_fault(matcher: CommandMatcher) -> Option<Seq<char>> {
    if matcher.program@.len() == 0 || matcher.program@.len() > 32 {
        Some("program must contain between 1 and 32 names"@)
    } else {
        match programs_fault(texts(matcher.program@), matcher.program@.len()) {
            Some(fault) => Some(fault),
            None => match tokens_fault("argv_prefix"@, texts(matcher.argv_prefix@)) {
                Some(fault) => Some(fault),
                None => tokens_fault("argv_contains_all"@, texts(matcher.argv_contains_all@)),
            },
        }
    }
}

proof fn lemma_programs_fault_stays(programs: Seq<Seq<char>>, count: nat, total: nat)
    requires
        count <= total,
        programs_fault(programs, count) is Some,
    ensures
        programs_fault(programs, total) == programs_fault(programs, count),
    decreases total,
{
    if count < total {
        lemma_programs_fault_stays(programs, count, (total - 1) as nat);
    }
}

proof fn lemma_token_fault_stays(label: Seq<char>, tokens: Seq<Seq<char>>, count: nat, total: nat)
    requires
        count <= total,
        token_list_fault(label, tokens, count) is Some,
    ensures
        token_list_fault(label, tokens, total) == token_list_fault(label, tokens, count),
    decreases total,
{
    if count < total {
        lemma_token_fault_stays(label, tokens, count, (total - 1) as nat);
    }
}

fn validate_tokens(label: &str, tokens: &Vec<String>) -> (result: Result<(), String>)
    ensures
        reports(result, tokens_fault(label@, texts(tokens@))),
{
    if tokens.len() > 64 {
        return Err(join2(label, " must not contain more than 64 tokens"));
    }
    let ghost words = texts(tokens@);
    let mut i: usize = 0;
    while i < tokens.len()
        invariant
            i <= tokens.len() <= 64,
            words == texts(tokens@),
            token_list_fault(label@, words, i as nat) is None,
        decreases tokens.len() - i,
    {
        let token = tokens[i].as_str();
        assert(words[i as int] == token@);
        let characters = crate::text::chars(token);
        let earlier: &[String] = &tokens.as_slice()[0..i];
        assert(texts(earlier@) =~= words.take(i as int));
        if characters.len() > 1_024 || contains_char(&characters, '\0') {
            proof {
                lemma_token_fault_stays(label@, words, i as nat + 1, words.len());
            }
            return Err(join3("invalid ", label, " token"));
        }
        if list_contains(earlier, token) {
            proof {
                lemma_token_fault_stays(label@, words, i as nat + 1, words.len());
            }
            return Err(join4("duplicate ", label, " token: ", token));
        }
        i += 1;
    }
    Ok(())
}

fn validate_programs(programs: &Vec<String>) -> (result: Result<(), String>)
    ensures
        reports(result, programs_fault(texts(programs@), programs@.len())),
{
    let ghost names = texts(programs@);
    let mut i: usize = 0;
    while i < programs.len()
        invariant
            i <= programs.len(),
            names == texts(programs@),
            programs_fault(names, i as nat) is None,
        decreases programs.len() - i,
    {
        let program = programs[i].as_str();
        assert(names[i as int] == program@);
        let earlier: &[String] = &programs.as_slice()[0..i];
        assert(texts(earlier@) =~= names.take(i as int));
        if !program_name(program.as_bytes()) {
            proof {
                lemma_programs_fault_stays(names, i as nat + 1, names.len());
            }
            return Err(join2("invalid program name: ", program));
        }
        if list_contains(earlier, program) {
            proof {
                lemma_programs_fault_stays(names, i as nat + 1, names.len());
            }
            return Err(join2("duplicate program name: ", program));
        }
        i += 1;
    }
    Ok(())
}

fn validate_matcher(matcher: &CommandMatcher) -> (result: Result<(), String>)
    ensures
        reports(result, matcher_fault(*matcher)),
{
    if matcher.program.len() == 0 || matcher.program.len() > 32 {
        return Err("program must contain between 1 and 32 names".to_owned());
    }
    validate_programs(&matcher.program)?;
    validate_tokens("argv_prefix", &matcher.argv_prefix)?;
    validate_tokens("argv_contains_all", &matcher.argv_contains_all)
}

/// The pattern's value can be compared.
pub open spec fn is_pattern_value(value: Seq<u8>) -> bool {
    0 < value.len() <= 4_096 && !value.contains(0u8)
}

/// What is wrong with a pattern.
pub open spec fn pattern_fault(pattern: LinePattern) -> Option<Seq<char>> {
    if is_pattern_value(encode_utf8(pattern.value@)) {
        None
    } else {
        Some("line pattern value must contain 1 through 4096 non-NUL bytes"@)
    }
}

/// Validate one line pattern.
///
/// # Errors
///
/// Returns an error when the value is empty, too long, or holds a NUL byte.
pub fn validate_pattern(pattern: &LinePattern) -> (result: Result<(), String>)
    ensures
        reports(result, pattern_fault(*pattern)),
{
    let value: &[u8] = pattern.value.as_str().as_bytes();
    if value.len() == 0 || value.len() > 4_096 {
        return Err("line pattern value must contain 1 through 4096 non-NUL bytes".to_owned());
    }
    let mut i: usize = 0;
    while i < value.len()
        invariant
            i <= value.len(),
            value@ == encode_utf8(pattern.value@),
            forall|j: int| 0 <= j < i ==> value@[j] != 0,
        decreases value.len() - i,
    {
        if value[i] == 0 {
            assert(value@[i as int] == 0u8);
            return Err("line pattern value must contain 1 through 4096 non-NUL bytes".to_owned());
        }
        i += 1;
    }
    Ok(())
}

/// The patterns have the same kind, value, case and trim.
pub open spec fn same_pattern(left: LinePattern, right: LinePattern) -> bool {
    &&& left.kind == right.kind
    &&& left.value@ == right.value@
    &&& left.case == right.case
    &&& left.trim == right.trim
}

/// One of the first `count` patterns is the same as `pattern`.
pub open spec fn pattern_repeats(
    patterns: Seq<LinePattern>,
    count: int,
    pattern: LinePattern,
) -> bool {
    exists|i: int| 0 <= i < count && same_pattern(#[trigger] patterns[i], pattern)
}

/// What is wrong with the first `count` patterns of a line filter.
pub open spec fn patterns_fault(patterns: Seq<LinePattern>, count: nat) -> Option<Seq<char>>
    decreases count,
{
    if count == 0 {
        None
    } else {
        let pattern = patterns[count - 1];
        match patterns_fault(patterns, (count - 1) as nat) {
            Some(fault) => Some(fault),
            None => match pattern_fault(pattern) {
                Some(fault) => Some(fault),
                None => if pattern_repeats(patterns, count - 1, pattern) {
                    Some("duplicate line pattern"@)
                } else {
                    None
                },
            },
        }
    }
}

/// What is wrong with a reducer.
pub open spec fn reducer_fault(reducer: Reducer) -> Option<Seq<char>> {
    match reducer {
        Reducer::LineFilter { strip_ansi, drop, keep } => if drop@.len() + keep@.len() > 256 {
            Some("line_filter must not contain more than 256 patterns"@)
        } else if !strip_ansi && drop@.len() == 0 && keep@.len() == 0 {
            Some("line_filter must strip ANSI or define a line pattern"@)
        } else {
            patterns_fault(drop@ + keep@, drop@.len() + keep@.len())
        },
        _ => None,
    }
}

proof fn lemma_patterns_fault_stays(patterns: Seq<LinePattern>, count: nat, total: nat)
    requires
        count <= total,
        patterns_fault(patterns, count) is Some,
    ensures
        patterns_fault(patterns, total) == patterns_fault(patterns, count),
    decreases total,
{
    if count < total {
        lemma_patterns_fault_stays(patterns, count, (total - 1) as nat);
    }
}

fn equal_patterns(left: &LinePattern, right: &LinePattern) -> (same: bool)
    ensures
        same == same_pattern(*left, *right),
{
    left.kind == right.kind && same_text(left.value.as_str(), right.value.as_str()) && left.case
        == right.case && left.trim == right.trim
}

fn pattern_at<'a>(drop: &'a Vec<LinePattern>, keep: &'a Vec<LinePattern>, index: usize) -> (pattern:
    &'a LinePattern)
    requires
        index < drop@.len() + keep@.len(),
    ensures
        *pattern == (drop@ + keep@)[index as int],
{
    if index < drop.len() {
        &drop[index]
    } else {
        &keep[index - drop.len()]
    }
}

fn validate_reducer(reducer: &Reducer) -> (result: Result<(), String>)
    ensures
        reports(result, reducer_fault(*reducer)),
{
    match reducer {
        Reducer::LineFilter { strip_ansi, drop, keep } => {
            if drop.len() > 256 || keep.len() > 256 - drop.len() {
                return Err("line_filter must not contain more than 256 patterns".to_owned());
            }
            if !*strip_ansi && drop.len() == 0 && keep.len() == 0 {
                return Err("line_filter must strip ANSI or define a line pattern".to_owned());
            }
            let ghost patterns = drop@ + keep@;
            let count: usize = drop.len() + keep.len();
            let mut i: usize = 0;
            while i < count
                invariant
                    i <= count,
                    count == drop@.len() + keep@.len(),
                    patterns == drop@ + keep@,
                    patterns_fault(patterns, i as nat) is None,
                    reducer_fault(*reducer) == patterns_fault(patterns, count as nat),
                decreases count - i,
            {
                let pattern = pattern_at(drop, keep, i);
                if let Err(error) = validate_pattern(pattern) {
                    proof {
                        lemma_patterns_fault_stays(patterns, i as nat + 1, count as nat);
                    }
                    return Err(error);
                }
                let mut j: usize = 0;
                while j < i
                    invariant
                        j <= i < count,
                        count == drop@.len() + keep@.len(),
                        patterns == drop@ + keep@,
                        *pattern == patterns[i as int],
                        pattern_fault(*pattern) is None,
                        patterns_fault(patterns, i as nat) is None,
                        reducer_fault(*reducer) == patterns_fault(patterns, count as nat),
                        forall|k: int|
                            0 <= k < j ==> !same_pattern(#[trigger] patterns[k], *pattern),
                    decreases i - j,
                {
                    if equal_patterns(pattern_at(drop, keep, j), pattern) {
                        proof {
                            assert(same_pattern(patterns[j as int], *pattern));
                            lemma_patterns_fault_stays(patterns, i as nat + 1, count as nat);
                        }
                        return Err("duplicate line pattern".to_owned());
                    }
                    j += 1;
                }
                i += 1;
            }
            Ok(())
        },
        _ => Ok(()),
    }
}

/// What is wrong with a policy.
pub open spec fn policy_fault(label: Seq<char>, policy: OutputPolicy) -> Option<Seq<char>> {
    if !(1 <= policy.max_line_bytes <= 1_048_576) {
        Some(label + ".max_line_bytes must be between 1 and 1048576"@)
    } else if !(704 <= policy.max_output_bytes <= 4_194_304) {
        Some(label + ".max_output_bytes must be between 704 and 4194304"@)
    } else if policy.min_savings_bytes > 1_048_576 {
        Some(label + ".min_savings_bytes must not exceed 1048576"@)
    } else if policy.min_savings_basis_points > 10_000 {
        Some(label + ".min_savings_basis_points must not exceed 10000"@)
    } else {
        None
    }
}

fn validate_policy(label: &str, policy: &OutputPolicy) -> (result: Result<(), String>)
    ensures
        reports(result, policy_fault(label@, *policy)),
{
    if policy.max_line_bytes < 1 || policy.max_line_bytes > 1_048_576 {
        return Err(join2(label, ".max_line_bytes must be between 1 and 1048576"));
    }
    if policy.max_output_bytes < 704 || policy.max_output_bytes > 4_194_304 {
        return Err(join2(label, ".max_output_bytes must be between 704 and 4194304"));
    }
    if policy.min_savings_bytes > 1_048_576 {
        return Err(join2(label, ".min_savings_bytes must not exceed 1048576"));
    }
    if policy.min_savings_basis_points > 10_000 {
        return Err(join2(label, ".min_savings_basis_points must not exceed 10000"));
    }
    Ok(())
}

/// The bytes of the values of some patterns.
pub open spec fn pattern_bytes(patterns: Seq<LinePattern>) -> nat
    decreases patterns.len(),
{
    if patterns.len() == 0 {
        0
    } else {
        pattern_bytes(patterns.drop_last()) + encode_utf8(patterns.last().value@).len()
    }
}

/// The bytes of the patterns of a reducer.
pub open spec fn reducer_bytes(reducer: ReducerModel) -> nat {
    match reducer {
        ReducerModel::LineFilter { drop, keep, .. } => pattern_bytes(drop + keep),
        _ => 0,
    }
}

/// The larger of two sizes.
pub open spec fn larger(left: usize, right: usize) -> nat {
    if left > right {
        left as nat
    } else {
        right as nat
    }
}

/// The memory that one stream of a rule may retain: the raw output, five summaries for each
/// outcome, two ends of a line, the patterns, the records with their fingerprints and keys,
/// the term samples and two fixed buffers.
pub open spec fn memory_bound(
    reducer: ReducerModel,
    success: OutputPolicy,
    failure: OutputPolicy,
) -> nat {
    let max_line = larger(success.max_line_bytes, failure.max_line_bytes);
    larger(success.max_output_bytes, failure.max_output_bytes) + (success.max_output_bytes
        + failure.max_output_bytes) as nat * 5 + max_line * 2 + reducer_bytes(reducer) + 81_920
        + super::super::reducers::bounded::saturated(max_line + 64) * 10 + 122_880 + 57_344 + 8_192
        + 65_536
}

/// The memory bound, or the part of it that does not fit in a machine word.
pub open spec fn checked_memory_bound(
    reducer: ReducerModel,
    success: OutputPolicy,
    failure: OutputPolicy,
) -> Result<nat, Seq<char>> {
    let max_line = larger(success.max_line_bytes, failure.max_line_bytes);
    if (success.max_output_bytes + failure.max_output_bytes) * 5 > usize::MAX {
        Err("summary memory bound overflowed"@)
    } else if max_line * 2 > usize::MAX {
        Err("line memory bound overflowed"@)
    } else if reducer_bytes(reducer) > usize::MAX {
        Err("line pattern memory bound overflowed"@)
    } else if super::super::reducers::bounded::saturated(max_line + 64) * 10 > usize::MAX {
        Err("diagnostic representative memory bound overflowed"@)
    } else if memory_bound(reducer, success, failure) > usize::MAX {
        Err("stream memory bound overflowed"@)
    } else {
        Ok(memory_bound(reducer, success, failure))
    }
}

/// A result that is a size or an error text.
pub open spec fn sized(result: Result<usize, String>) -> Result<nat, Seq<char>> {
    match result {
        Ok(size) => Ok(size as nat),
        Err(error) => Err(error@),
    }
}

proof fn lemma_pattern_bytes_grow(patterns: Seq<LinePattern>, count: int)
    requires
        0 <= count <= patterns.len(),
    ensures
        pattern_bytes(patterns.take(count)) <= pattern_bytes(patterns),
    decreases patterns.len() - count,
{
    if count == patterns.len() {
        assert(patterns.take(count) =~= patterns);
    } else {
        lemma_pattern_bytes_grow(patterns, count + 1);
        assert(patterns.take(count + 1).drop_last() =~= patterns.take(count));
    }
}

fn sum_pattern_bytes(drop: &Vec<LinePattern>, keep: &Vec<LinePattern>) -> (total: Option<usize>)
    ensures
        total is None <==> pattern_bytes(drop@ + keep@) > usize::MAX,
        total matches Some(bytes) ==> bytes == pattern_bytes(drop@ + keep@),
{
    let ghost patterns = drop@ + keep@;
    let mut total: usize = 0;
    let mut i: usize = 0;
    assert(pattern_bytes(patterns.take(0)) == 0);
    while i < drop.len()
        invariant
            i <= drop.len(),
            patterns == drop@ + keep@,
            total == pattern_bytes(patterns.take(i as int)),
        decreases drop.len() - i,
    {
        let length: usize = drop[i].value.as_str().as_bytes().len();
        proof {
            assert(patterns.take(i + 1).drop_last() =~= patterns.take(i as int));
            assert(patterns.take(i + 1).last() == drop@[i as int]);
            lemma_pattern_bytes_grow(patterns, i + 1);
        }
        if length > usize::MAX - total {
            return None;
        }
        total = total + length;
        i += 1;
    }
    let mut j: usize = 0;
    while j < keep.len()
        invariant
            j <= keep.len(),
            patterns == drop@ + keep@,
            total == pattern_bytes(patterns.take(drop@.len() + j)),
        decreases keep.len() - j,
    {
        let length: usize = keep[j].value.as_str().as_bytes().len();
        proof {
            let count = drop@.len() + j;
            assert(patterns.take(count + 1).drop_last() =~= patterns.take(count));
            assert(patterns.take(count + 1).last() == keep@[j as int]);
            lemma_pattern_bytes_grow(patterns, count + 1);
        }
        if length > usize::MAX - total {
            return None;
        }
        total = total + length;
        j += 1;
    }
    assert(patterns.take(patterns.len() as int) =~= patterns);
    Some(total)
}

#[verifier::spinoff_prover]
#[verifier::rlimit(60)]
fn stream_memory_bound_parts(
    reducer: &Reducer,
    success: &OutputPolicy,
    failure: &OutputPolicy,
) -> (result: Result<usize, String>)
    ensures
        sized(result) == checked_memory_bound(reducer@, *success, *failure),
{
    let word: u128 = usize::MAX as u128;
    let raw: u128 = if success.max_output_bytes > failure.max_output_bytes {
        success.max_output_bytes as u128
    } else {
        failure.max_output_bytes as u128
    };
    let max_line: usize = if success.max_line_bytes > failure.max_line_bytes {
        success.max_line_bytes
    } else {
        failure.max_line_bytes
    };
    let summaries: u128 = (success.max_output_bytes as u128 + failure.max_output_bytes as u128) * 5;
    if summaries > word {
        return Err("summary memory bound overflowed".to_owned());
    }
    let line_state: u128 = max_line as u128 * 2;
    if line_state > word {
        return Err("line memory bound overflowed".to_owned());
    }
    let pattern_state: u128 = match reducer {
        Reducer::LineFilter { drop, keep, .. } => match sum_pattern_bytes(drop, keep) {
            Some(bytes) => bytes as u128,
            None => {
                return Err("line pattern memory bound overflowed".to_owned());
            },
        },
        _ => 0,
    };
    assert(pattern_state == reducer_bytes(reducer@));
    let samples: u128 = max_line.saturating_add(64) as u128 * 10;
    if samples > word {
        return Err("diagnostic representative memory bound overflowed".to_owned());
    }
    let total: u128 = raw + summaries + line_state + pattern_state + 81_920 + samples + 122_880
        + 57_344 + 8_192 + 65_536;
    assert(total == memory_bound(reducer@, *success, *failure));
    if total > word {
        return Err("stream memory bound overflowed".to_owned());
    }
    Ok(total as usize)
}

/// The memory bound of a rule, or why it has none.
pub open spec fn rule_memory_bound(rule: RuleModel) -> Result<nat, Seq<char>> {
    match (rule.reducer, rule.success, rule.failure) {
        (None, _, _) => Err("reduction rule is missing a reducer"@),
        (_, None, _) => Err("reduction rule is missing a success policy"@),
        (_, _, None) => Err("reduction rule is missing a failure policy"@),
        (Some(reducer), Some(success), Some(failure)) => checked_memory_bound(
            reducer,
            success,
            failure,
        ),
    }
}

/// Calculate the retained-memory bound for one stream of a rule.
///
/// # Errors
///
/// Returns an error when the rule is incomplete or the bound does not fit in a machine word.
pub fn stream_memory_bound(rule: &Rule) -> (result: Result<usize, String>)
    ensures
        sized(result) == rule_memory_bound(rule@),
{
    let Some(reducer) = &rule.reducer else {
        return Err("reduction rule is missing a reducer".to_owned());
    };
    let Some(success) = &rule.success else {
        return Err("reduction rule is missing a success policy".to_owned());
    };
    let Some(failure) = &rule.failure else {
        return Err("reduction rule is missing a failure policy".to_owned());
    };
    stream_memory_bound_parts(reducer, success, failure)
}

/// What is wrong with the reducer, the policies and the memory bound of a reduction rule.
pub open spec fn reduction_fault(
    id: Seq<char>,
    reducer: Reducer,
    success: OutputPolicy,
    failure: OutputPolicy,
) -> Option<Seq<char>> {
    match reducer_fault(reducer) {
        Some(fault) => Some(fault),
        None => match policy_fault("success"@, success) {
            Some(fault) => Some(fault),
            None => match policy_fault("failure"@, failure) {
                Some(fault) => Some(fault),
                None => match checked_memory_bound(reducer@, success, failure) {
                    Err(fault) => Some(fault),
                    Ok(bound) => if bound > MAX_STREAM_MEMORY_BYTES {
                        Some(
                            "reduce rule "@ + id + " requires "@ + digits(bound)
                                + " bytes per stream, above the 4194304-byte limit"@,
                        )
                    } else {
                        None
                    },
                },
            },
        },
    }
}

/// What is wrong with the parts that the action of a rule asks for or excludes.
pub open spec fn action_fault(rule: Rule) -> Option<Seq<char>> {
    match rule.action {
        Action::Passthrough => if rule.transform is Some || rule.reducer is Some
            || rule.success is Some || rule.failure is Some {
            Some(
                "passthrough rule "@ + rule.id@
                    + " must not define transform, reducer, or output policies"@,
            )
        } else {
            None
        },
        Action::Transform => if rule.transform is None {
            Some("transform rule "@ + rule.id@ + " is missing transform"@)
        } else if rule.reducer is Some || rule.success is Some || rule.failure is Some {
            Some("transform rule "@ + rule.id@ + " must not define reducer or output policies"@)
        } else {
            None
        },
        Action::Reduce => if rule.transform is Some {
            Some("reduce rule "@ + rule.id@ + " must not define transform"@)
        } else {
            match (rule.reducer, rule.success, rule.failure) {
                (None, _, _) => Some("reduce rule "@ + rule.id@ + " is missing reducer"@),
                (_, None, _) => Some("reduce rule "@ + rule.id@ + " is missing success policy"@),
                (_, _, None) => Some("reduce rule "@ + rule.id@ + " is missing failure policy"@),
                (Some(reducer), Some(success), Some(failure)) => reduction_fault(
                    rule.id@,
                    reducer,
                    success,
                    failure,
                ),
            }
        },
    }
}

/// What is wrong with a rule.
#[verifier::opaque]
pub open spec fn rule_fault(rule: Rule) -> Option<Seq<char>> {
    match identifier_fault(rule.id@, 128, true, "rule id"@) {
        Some(fault) => Some(fault),
        None => match matcher_fault(rule.matcher) {
            Some(fault) => Some(fault),
            None => action_fault(rule),
        },
    }
}

fn validate_reduction(
    id: &str,
    reducer: &Reducer,
    success: &OutputPolicy,
    failure: &OutputPolicy,
) -> (result: Result<(), String>)
    ensures
        reports(result, reduction_fault(id@, *reducer, *success, *failure)),
{
    validate_reducer(reducer)?;
    validate_policy("success", success)?;
    validate_policy("failure", failure)?;
    let memory_bound = stream_memory_bound_parts(reducer, success, failure)?;
    if memory_bound > MAX_STREAM_MEMORY_BYTES {
        return Err(
            join5(
                "reduce rule ",
                id,
                " requires ",
                decimal(memory_bound as u64).as_str(),
                " bytes per stream, above the 4194304-byte limit",
            ),
        );
    }
    Ok(())
}

/// Validate one rule.
///
/// # Errors
///
/// Returns an error when matching, action, reducer, pattern, or budget constraints fail.
pub fn validate_rule(rule: &Rule) -> (result: Result<(), String>)
    ensures
        reports(result, rule_fault(*rule)),
{
    proof {
        reveal(rule_fault);
    }
    let id = rule.id.as_str();
    validate_rule_id(id)?;
    validate_matcher(&rule.matcher)?;
    match rule.action {
        Action::Passthrough => {
            if rule.transform.is_some() || rule.reducer.is_some() || rule.success.is_some()
                || rule.failure.is_some() {
                return Err(
                    join3(
                        "passthrough rule ",
                        id,
                        " must not define transform, reducer, or output policies",
                    ),
                );
            }
            Ok(())
        },
        Action::Transform => {
            if rule.transform.is_none() {
                return Err(join3("transform rule ", id, " is missing transform"));
            }
            if rule.reducer.is_some() || rule.success.is_some() || rule.failure.is_some() {
                return Err(
                    join3("transform rule ", id, " must not define reducer or output policies"),
                );
            }
            Ok(())
        },
        Action::Reduce => {
            if rule.transform.is_some() {
                return Err(join3("reduce rule ", id, " must not define transform"));
            }
            let Some(reducer) = &rule.reducer else {
                return Err(join3("reduce rule ", id, " is missing reducer"));
            };
            let Some(success) = &rule.success else {
                return Err(join3("reduce rule ", id, " is missing success policy"));
            };
            let Some(failure) = &rule.failure else {
                return Err(join3("reduce rule ", id, " is missing failure policy"));
            };
            validate_reduction(id, reducer, success, failure)
        },
    }
}

/// The matchers name the same programs, prefix and required words.
pub open spec fn same_matcher(left: CommandMatcher, right: CommandMatcher) -> bool {
    &&& texts(left.program@) == texts(right.program@)
    &&& texts(left.argv_prefix@) == texts(right.argv_prefix@)
    &&& texts(left.argv_contains_all@) == texts(right.argv_contains_all@)
}

/// The first rule from `from` on with this matcher.
pub open spec fn rule_with_matcher(rules: Seq<Rule>, matcher: CommandMatcher, from: int) -> Option<int>
    decreases rules.len() - from,
{
    if from < 0 || from >= rules.len() {
        None
    } else if same_matcher(rules[from].matcher, matcher) {
        Some(from)
    } else {
        rule_with_matcher(rules, matcher, from + 1)
    }
}

/// One of the rules has this id.
pub open spec fn has_rule_id(rules: Seq<Rule>, id: Seq<char>) -> bool {
    exists|i: int| 0 <= i < rules.len() && (#[trigger] rules[i]).id@ == id
}

/// What is wrong with the first `count` rules, taken one by one and with those before.
pub open spec fn each_rule_fault(rules: Seq<Rule>, count: nat) -> Option<Seq<char>>
    decreases count,
{
    if count == 0 {
        None
    } else {
        let rule = rules[count - 1];
        let earlier = rules.take(count - 1);
        match each_rule_fault(rules, (count - 1) as nat) {
            Some(fault) => Some(fault),
            None => match rule_fault(rule) {
                Some(fault) => Some(fault),
                None => if has_rule_id(earlier, rule.id@) {
                    Some("duplicate rule id: "@ + rule.id@)
                } else {
                    match rule_with_matcher(earlier, rule.matcher, 0) {
                        Some(index) => Some(
                            "rules "@ + rules[index].id@ + " and "@ + rule.id@
                                + " have the same command matcher"@,
                        ),
                        None => None,
                    }
                },
            },
        }
    }
}

/// One command line may match both matchers, as far as programs and prefixes tell.
pub open spec fn may_overlap(left: CommandMatcher, right: CommandMatcher) -> bool {
    &&& exists|i: int|
        0 <= i < left.program@.len() && texts(right.program@).contains(
            (#[trigger] left.program@[i])@,
        )
    &&& super::model::words_open_with(texts(left.argv_prefix@), texts(right.argv_prefix@))
        || super::model::words_open_with(texts(right.argv_prefix@), texts(left.argv_prefix@))
}

/// The first rule from `from` on that competes with rule `index`.
pub open spec fn competitor(rules: Seq<Rule>, index: int, from: int) -> Option<int>
    decreases rules.len() - from,
{
    if from < 0 || from >= rules.len() {
        None
    } else if rules[from].action != Action::Passthrough && may_overlap(
        rules[index].matcher,
        rules[from].matcher,
    ) {
        Some(from)
    } else {
        competitor(rules, index, from + 1)
    }
}

/// The first two rules from `from` on that change output and may match one command line.
pub open spec fn competing_pair(rules: Seq<Rule>, from: int) -> Option<(int, int)>
    decreases rules.len() - from,
{
    if from < 0 || from >= rules.len() {
        None
    } else if rules[from].action == Action::Passthrough {
        competing_pair(rules, from + 1)
    } else {
        match competitor(rules, from, from + 1) {
            Some(other) => Some((from, other)),
            None => competing_pair(rules, from + 1),
        }
    }
}

/// What is wrong with the rules of a pack.
pub open spec fn rules_fault(rules: Seq<Rule>) -> Option<Seq<char>> {
    if rules.len() == 0 || rules.len() > MAX_RULES {
        Some("pack must contain between 1 and 10000 rules"@)
    } else {
        match each_rule_fault(rules, rules.len()) {
            Some(fault) => Some(fault),
            None => match competing_pair(rules, 0) {
                Some((left, right)) => Some(
                    "reduction rules "@ + rules[left].id@ + " and "@ + rules[right].id@
                        + " can match the same command"@,
                ),
                None => None,
            },
        }
    }
}

proof fn lemma_each_rule_fault_stays(rules: Seq<Rule>, count: nat, total: nat)
    requires
        count <= total,
        each_rule_fault(rules, count) is Some,
    ensures
        each_rule_fault(rules, total) == each_rule_fault(rules, count),
    decreases total,
{
    if count < total {
        lemma_each_rule_fault_stays(rules, count, (total - 1) as nat);
    }
}

fn equal_matchers(left: &CommandMatcher, right: &CommandMatcher) -> (same: bool)
    ensures
        same == same_matcher(*left, *right),
{
    same_texts(left.program.as_slice(), right.program.as_slice()) && same_texts(
        left.argv_prefix.as_slice(),
        right.argv_prefix.as_slice(),
    ) && same_texts(left.argv_contains_all.as_slice(), right.argv_contains_all.as_slice())
}

fn id_is_taken(rules: &[Rule], id: &str) -> (found: bool)
    ensures
        found == has_rule_id(rules@, id@),
{
    let mut i: usize = 0;
    while i < rules.len()
        invariant
            i <= rules.len(),
            forall|j: int| 0 <= j < i ==> (#[trigger] rules@[j]).id@ != id@,
        decreases rules.len() - i,
    {
        if same_text(rules[i].id.as_str(), id) {
            return true;
        }
        i += 1;
    }
    false
}

fn find_matcher(rules: &[Rule], matcher: &CommandMatcher) -> (index: Option<usize>)
    ensures
        index is None <==> rule_with_matcher(rules@, *matcher, 0) is None,
        index matches Some(i) ==> i < rules@.len() && rule_with_matcher(rules@, *matcher, 0)
            == Some(i as int),
{
    let mut i: usize = 0;
    while i < rules.len()
        invariant
            i <= rules.len(),
            rule_with_matcher(rules@, *matcher, 0) == rule_with_matcher(rules@, *matcher, i as int),
        decreases rules.len() - i,
    {
        if equal_matchers(&rules[i].matcher, matcher) {
            return Some(i);
        }
        i += 1;
    }
    None
}

/// Whether `words` begin with `prefix`.
pub fn begins_with_words(words: &Vec<String>, prefix: &Vec<String>) -> (found: bool)
    ensures
        found == super::model::words_open_with(texts(words@), texts(prefix@)),
{
    if prefix.len() > words.len() {
        return false;
    }
    let opening: &[String] = &words.as_slice()[0..prefix.len()];
    assert(texts(opening@) =~= texts(words@).subrange(0, prefix@.len() as int));
    same_texts(opening, prefix.as_slice())
}

fn matchers_may_overlap(left: &CommandMatcher, right: &CommandMatcher) -> (found: bool)
    ensures
        found == may_overlap(*left, *right),
{
    let mut shared = false;
    let mut i: usize = 0;
    while i < left.program.len() && !shared
        invariant
            i <= left.program.len(),
            shared ==> exists|j: int|
                0 <= j < left.program@.len() && texts(right.program@).contains(
                    (#[trigger] left.program@[j])@,
                ),
            !shared ==> forall|j: int|
                0 <= j < i ==> !texts(right.program@).contains((#[trigger] left.program@[j])@),
        decreases left.program.len() - i, !shared as int,
    {
        if list_contains(right.program.as_slice(), left.program[i].as_str()) {
            assert(texts(right.program@).contains(left.program@[i as int]@));
            shared = true;
        }
        i += 1;
    }
    shared && (begins_with_words(&left.argv_prefix, &right.argv_prefix) || begins_with_words(
        &right.argv_prefix,
        &left.argv_prefix,
    ))
}

fn reject_known_reduction_overlaps(rules: &[Rule]) -> (result: Result<(), String>)
    ensures
        reports(
            result,
            match competing_pair(rules@, 0) {
                Some((left, right)) => Some(
                    "reduction rules "@ + rules@[left].id@ + " and "@ + rules@[right].id@
                        + " can match the same command"@,
                ),
                None => None,
            },
        ),
{
    let mut i: usize = 0;
    while i < rules.len()
        invariant
            i <= rules.len(),
            competing_pair(rules@, 0) == competing_pair(rules@, i as int),
        decreases rules.len() - i,
    {
        if rules[i].action != Action::Passthrough {
            let mut j: usize = i + 1;
            while j < rules.len()
                invariant
                    i < j <= rules.len(),
                    rules@[i as int].action != Action::Passthrough,
                    competing_pair(rules@, 0) == competing_pair(rules@, i as int),
                    competitor(rules@, i as int, i + 1) == competitor(rules@, i as int, j as int),
                decreases rules.len() - j,
            {
                if rules[j].action != Action::Passthrough && matchers_may_overlap(
                    &rules[i].matcher,
                    &rules[j].matcher,
                ) {
                    return Err(
                        join5(
                            "reduction rules ",
                            rules[i].id.as_str(),
                            " and ",
                            rules[j].id.as_str(),
                            " can match the same command",
                        ),
                    );
                }
                j += 1;
            }
        }
        i += 1;
    }
    Ok(())
}

/// Validate the rules of a pack: each by itself, their ids and matchers, and that no two rules
/// that change output can match one command line.
///
/// # Errors
///
/// Returns an error when a rule is invalid or conflicts with another rule.
pub fn validate_rules(rules: &[Rule]) -> (result: Result<(), String>)
    ensures
        reports(result, rules_fault(rules@)),
{
    if rules.len() == 0 || rules.len() > MAX_RULES {
        return Err("pack must contain between 1 and 10000 rules".to_owned());
    }
    let mut i: usize = 0;
    while i < rules.len()
        invariant
            0 < rules@.len() <= MAX_RULES,
            i <= rules.len(),
            each_rule_fault(rules@, i as nat) is None,
        decreases rules.len() - i,
    {
        let rule = &rules[i];
        let earlier: &[Rule] = &rules[0..i];
        assert(earlier@ =~= rules@.take(i as int));
        if let Err(error) = validate_rule(rule) {
            proof {
                lemma_each_rule_fault_stays(rules@, i as nat + 1, rules@.len());
            }
            return Err(error);
        }
        if id_is_taken(earlier, rule.id.as_str()) {
            proof {
                lemma_each_rule_fault_stays(rules@, i as nat + 1, rules@.len());
            }
            return Err(join2("duplicate rule id: ", rule.id.as_str()));
        }
        if let Some(index) = find_matcher(earlier, &rule.matcher) {
            proof {
                lemma_each_rule_fault_stays(rules@, i as nat + 1, rules@.len());
            }
            return Err(
                join5(
                    "rules ",
                    rules[index].id.as_str(),
                    " and ",
                    rule.id.as_str(),
                    " have the same command matcher",
                ),
            );
        }
        i += 1;
    }
    reject_known_reduction_overlaps(rules)
}

proof fn lemma_no_competitor(rules: Seq<Rule>, index: int, from: int, other: int)
    requires
        0 <= from <= other < rules.len(),
        competitor(rules, index, from) is None,
        rules[other].action != Action::Passthrough,
    ensures
        !may_overlap(rules[index].matcher, rules[other].matcher),
    decreases other - from,
{
    if from < other {
        lemma_no_competitor(rules, index, from + 1, other);
    }
}

pub proof fn lemma_no_competing_pair(rules: Seq<Rule>, from: int, left: int, right: int)
    requires
        0 <= from <= left < right < rules.len(),
        competing_pair(rules, from) is None,
        rules[left].action != Action::Passthrough,
        rules[right].action != Action::Passthrough,
    ensures
        !may_overlap(rules[left].matcher, rules[right].matcher),
    decreases left - from,
{
    if from < left {
        lemma_no_competing_pair(rules, from + 1, left, right);
    } else {
        lemma_no_competitor(rules, left, left + 1, right);
    }
}

proof fn lemma_shared_command_overlaps(
    left: CommandMatcher,
    right: CommandMatcher,
    arguments: Seq<Seq<char>>,
)
    requires
        left.covers(arguments),
        right.covers(arguments),
    ensures
        may_overlap(left, right),
{
    let program = arguments[0];
    let index = choose|i: int|
        0 <= i < texts(left.program@).len() && texts(left.program@)[i] == program;
    assert(left.program@[index]@ == program);
    let tail = super::model::normalized(
        program,
        arguments.subrange(1, arguments.len() as int),
    );
    let first = texts(left.argv_prefix@);
    let second = texts(right.argv_prefix@);
    if first.len() <= second.len() {
        assert(second.subrange(0, first.len() as int) =~= tail.subrange(0, first.len() as int));
    } else {
        assert(first.subrange(0, second.len() as int) =~= tail.subrange(0, second.len() as int));
    }
}

/// In a valid pack no command line is covered by two rules that change output.
pub proof fn lemma_valid_rules_never_compete(
    rules: Seq<Rule>,
    left: int,
    right: int,
    arguments: Seq<Seq<char>>,
)
    requires
        rules_fault(rules) is None,
        0 <= left < rules.len(),
        0 <= right < rules.len(),
        rules[left].action != Action::Passthrough,
        rules[right].action != Action::Passthrough,
        rules[left].matcher.covers(arguments),
        rules[right].matcher.covers(arguments),
    ensures
        left == right,
{
    if left < right {
        lemma_shared_command_overlaps(rules[left].matcher, rules[right].matcher, arguments);
        lemma_no_competing_pair(rules, 0, left, right);
    } else if right < left {
        lemma_shared_command_overlaps(rules[right].matcher, rules[left].matcher, arguments);
        lemma_no_competing_pair(rules, 0, right, left);
    }
}

} // verus!
