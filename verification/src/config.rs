//! The configuration: its fields, their bounds and defaults, and how one of them is changed.
use vstd::prelude::*;

pub mod document;
pub mod editing;
pub mod laws;

use self::document::ValueModel;
use self::document::written_document;
use self::editing::{
    edit_document, editable, editable_document, edited, is_written, remove_from_document, removed,
};
use crate::archive::calls::optional;
use crate::text::{
    canonical_number, decimal, digits, ends_with, is_canonical_number, join2, join3, list_contains,
    number, opens_with, parse_number, reports, same_text, starts_with, texts, verdict,
};

verus! {

/// The version of the configuration.
pub const CONFIG_VERSION: u32 = 1;

pub const DEFAULT_OUTPUT_CAP_BYTES: usize = 5_120;

pub const MIN_OUTPUT_CAP_BYTES: usize = 1_024;

pub const MAX_OUTPUT_CAP_BYTES: usize = 16_777_216;

pub const DEFAULT_RECOVERY_CAP_BYTES: usize = 32_768;

pub const MIN_RECOVERY_CAP_BYTES: usize = 1_024;

pub const MAX_RECOVERY_CAP_BYTES: usize = 49_152;

pub const DEFAULT_RECOVERY_CAP_LINES: usize = 1_900;

pub const MIN_RECOVERY_CAP_LINES: usize = 1;

pub const MAX_RECOVERY_CAP_LINES: usize = 1_900;

/// The file that a new configuration starts from.
pub const DEFAULT_DOCUMENT: &'static str =
    "# YARP configuration\nversion = 1\n\n[pruning]\nenabled = true\n\n[output]\ncap_bytes = 5120\nrecovery_cap_bytes = 32768\nrecovery_cap_lines = 1900\n\n[archive]\nenabled = true\n# Omit path to use the XDG data directory.\n\n[rules]\npacks = []\n";

/// What a configuration file says. A field that is not in the file is `None`.
#[derive(Clone, Debug)]
pub struct FileConfig {
    pub version: u32,
    pub pruning_enabled: Option<bool>,
    pub cap_bytes: Option<usize>,
    pub recovery_cap_bytes: Option<usize>,
    pub recovery_cap_lines: Option<usize>,
    pub archive_enabled: Option<bool>,
    pub archive_path: Option<String>,
    pub packs: Option<Vec<String>>,
}

/// The configuration with every field filled in.
#[derive(Clone, Debug, PartialEq, Eq)]
pub struct ResolvedConfig {
    pub version: u32,
    pub pruning: PruningConfig,
    pub output: OutputConfig,
    pub archive: ArchiveConfig,
    pub rules: RulesConfig,
}

#[derive(Clone, Debug, PartialEq, Eq)]
pub struct PruningConfig {
    pub enabled: bool,
}

#[derive(Clone, Debug, PartialEq, Eq)]
pub struct OutputConfig {
    pub cap_bytes: usize,
    pub recovery_cap_bytes: usize,
    pub recovery_cap_lines: usize,
}

#[derive(Clone, Debug, PartialEq, Eq)]
pub struct ArchiveConfig {
    pub enabled: bool,
    pub path: String,
    pub is_default_path: bool,
}

#[derive(Clone, Debug, PartialEq, Eq)]
pub struct RulesConfig {
    pub packs: Vec<String>,
}

/// The contents of a [`ResolvedConfig`].
#[verifier::ext_equal]
pub struct ConfigModel {
    pub version: u32,
    pub pruning_enabled: bool,
    pub cap_bytes: usize,
    pub recovery_cap_bytes: usize,
    pub recovery_cap_lines: usize,
    pub archive_enabled: bool,
    pub archive_path: Seq<char>,
    pub is_default_path: bool,
    pub packs: Seq<Seq<char>>,
}

impl View for ResolvedConfig {
    type V = ConfigModel;

    open spec fn view(&self) -> ConfigModel {
        ConfigModel {
            version: self.version,
            pruning_enabled: self.pruning.enabled,
            cap_bytes: self.output.cap_bytes,
            recovery_cap_bytes: self.output.recovery_cap_bytes,
            recovery_cap_lines: self.output.recovery_cap_lines,
            archive_enabled: self.archive.enabled,
            archive_path: self.archive.path@,
            is_default_path: self.archive.is_default_path,
            packs: texts(self.rules.packs@),
        }
    }
}

/// The path is absolute.
pub open spec fn is_absolute(path: Seq<char>) -> bool {
    opens_with(path, "/"@)
}

/// A directory that a variable of the environment names, and a path in it.
pub open spec fn under(directory: Seq<char>, name: Seq<char>, rest: Seq<char>) -> Result<
    Seq<char>,
    Seq<char>,
> {
    if is_absolute(directory) {
        Ok(joined(directory, rest))
    } else {
        Err(name + " must be an absolute path"@)
    }
}

/// A path below a directory, or the path itself where it is absolute.
pub open spec fn joined(directory: Seq<char>, path: Seq<char>) -> Seq<char> {
    if is_absolute(path) {
        path
    } else if directory.len() == 0 || crate::text::closes_with(directory, "/"@) {
        directory + path
    } else {
        directory + "/"@ + path
    }
}

/// Find a path below a directory.
pub fn join_path(directory: &str, path: &str) -> (whole: String)
    ensures
        whole@ == joined(directory@, path@),
{
    if starts_with(path, "/") {
        return path.to_owned();
    }
    if same_text(directory, "") || ends_with(directory, "/") {
        proof {
            reveal_strlit("");
            assert(directory@ == ""@ <==> directory@.len() == 0) by {
                if directory@.len() == 0 {
                    assert(directory@ =~= ""@);
                }
            }
        }
        return join2(directory, path);
    }
    proof {
        reveal_strlit("");
        if directory@.len() == 0 {
            assert(directory@ =~= ""@);
        }
    }
    join3(directory, "/", path)
}

fn environment_path(directory: &str, name: &str, rest: &str) -> (result: Result<String, String>)
    ensures
        match under(directory@, name@, rest@) {
            Ok(path) => result matches Ok(found) && found@ == path,
            Err(message) => result matches Err(error) && error@ == message,
        },
{
    if !starts_with(directory, "/") {
        return Err(join2(name, " must be an absolute path"));
    }
    Ok(join_path(directory, rest))
}

/// Where the configuration of a user stands, or why that cannot be told.
pub open spec fn config_place(config_home: Option<Seq<char>>, home: Option<Seq<char>>) -> Result<
    Seq<char>,
    Seq<char>,
> {
    match (config_home, home) {
        (Some(directory), _) => under(directory, "XDG_CONFIG_HOME"@, "yarp/config.toml"@),
        (None, Some(directory)) => under(directory, "HOME"@, ".config/yarp/config.toml"@),
        (None, None) => Err("could not resolve YARP configuration: HOME is not set"@),
    }
}

/// Where the configuration of a user stands, given the variables of the environment.
///
/// # Errors
///
/// Returns an error when neither variable is set, or when the one that is used is not absolute.
pub fn path(config_home: &Option<String>, home: &Option<String>) -> (result: Result<String, String>)
    ensures
        match config_place(optional(*config_home), optional(*home)) {
            Ok(path) => result matches Ok(found) && found@ == path,
            Err(message) => result matches Err(error) && error@ == message,
        },
{
    match config_home {
        Some(directory) => environment_path(
            directory.as_str(),
            "XDG_CONFIG_HOME",
            "yarp/config.toml",
        ),
        None => match home {
            Some(directory) => environment_path(
                directory.as_str(),
                "HOME",
                ".config/yarp/config.toml",
            ),
            None => Err("could not resolve YARP configuration: HOME is not set".to_owned()),
        },
    }
}

/// Where the archive of a user stands by default, or why that cannot be told.
pub open spec fn archive_place(data_home: Option<Seq<char>>, home: Option<Seq<char>>) -> Result<
    Seq<char>,
    Seq<char>,
> {
    match (data_home, home) {
        (Some(directory), _) => under(directory, "XDG_DATA_HOME"@, "yarp/tool-calls.sqlite3"@),
        (None, Some(directory)) => under(directory, "HOME"@, ".local/share/yarp/tool-calls.sqlite3"@),
        (None, None) => Err("could not resolve YARP archive: HOME is not set"@),
    }
}

/// Where the archive of a user stands unless the configuration says otherwise.
///
/// # Errors
///
/// Returns an error when neither variable is set, or when the one that is used is not absolute.
pub fn default_archive_path(data_home: &Option<String>, home: &Option<String>) -> (result: Result<
    String,
    String,
>)
    ensures
        match archive_place(optional(*data_home), optional(*home)) {
            Ok(path) => result matches Ok(found) && found@ == path,
            Err(message) => result matches Err(error) && error@ == message,
        },
{
    match data_home {
        Some(directory) => environment_path(
            directory.as_str(),
            "XDG_DATA_HOME",
            "yarp/tool-calls.sqlite3",
        ),
        None => match home {
            Some(directory) => environment_path(
                directory.as_str(),
                "HOME",
                ".local/share/yarp/tool-calls.sqlite3",
            ),
            None => Err("could not resolve YARP archive: HOME is not set".to_owned()),
        },
    }
}

/// The configuration of a user who has no file.
pub open spec fn default_config(archive_path: Seq<char>) -> ConfigModel {
    ConfigModel {
        version: CONFIG_VERSION,
        pruning_enabled: true,
        cap_bytes: DEFAULT_OUTPUT_CAP_BYTES,
        recovery_cap_bytes: DEFAULT_RECOVERY_CAP_BYTES,
        recovery_cap_lines: DEFAULT_RECOVERY_CAP_LINES,
        archive_enabled: true,
        archive_path,
        is_default_path: true,
        packs: Seq::empty(),
    }
}

/// The configuration of a user who has no file.
///
/// # Errors
///
/// Returns an error when the archive has no default place.
pub fn defaults(archive_path: Result<String, String>) -> (result: Result<ResolvedConfig, String>)
    ensures
        match archive_path {
            Ok(path) => result matches Ok(config) && config@ == default_config(path@),
            Err(error) => result == Err::<ResolvedConfig, String>(error),
        },
{
    match archive_path {
        Ok(path) => {
            let packs: Vec<String> = Vec::new();
            assert(texts(packs@) =~= Seq::empty());
            Ok(
                ResolvedConfig {
                    version: CONFIG_VERSION,
                    pruning: PruningConfig { enabled: true },
                    output: OutputConfig {
                        cap_bytes: DEFAULT_OUTPUT_CAP_BYTES,
                        recovery_cap_bytes: DEFAULT_RECOVERY_CAP_BYTES,
                        recovery_cap_lines: DEFAULT_RECOVERY_CAP_LINES,
                    },
                    archive: ArchiveConfig { enabled: true, path, is_default_path: true },
                    rules: RulesConfig { packs },
                },
            )
        },
        Err(error) => Err(error),
    }
}

/// The value of an optional field.
pub open spec fn or_default<T>(value: Option<T>, default: T) -> T {
    match value {
        Some(given) => given,
        None => default,
    }
}

/// What is wrong with the numbers of a configuration file.
pub open spec fn bounds_fault(file: FileConfig) -> Option<Seq<char>> {
    let cap = or_default(file.cap_bytes, DEFAULT_OUTPUT_CAP_BYTES);
    let bytes = or_default(file.recovery_cap_bytes, DEFAULT_RECOVERY_CAP_BYTES);
    let lines = or_default(file.recovery_cap_lines, DEFAULT_RECOVERY_CAP_LINES);
    if file.version != CONFIG_VERSION {
        Some(
            "unsupported configuration version "@ + digits(file.version as nat) + "; expected 1"@,
        )
    } else if cap != 0 && !(MIN_OUTPUT_CAP_BYTES <= cap <= MAX_OUTPUT_CAP_BYTES) {
        Some("output.cap_bytes must be 0 or 1024 through 16777216"@)
    } else if !(MIN_RECOVERY_CAP_BYTES <= bytes <= MAX_RECOVERY_CAP_BYTES) {
        Some("output.recovery_cap_bytes must be 1024 through 49152"@)
    } else if !(MIN_RECOVERY_CAP_LINES <= lines <= MAX_RECOVERY_CAP_LINES) {
        Some("output.recovery_cap_lines must be 1 through 1900"@)
    } else {
        None
    }
}

/// Check the version and the numbers of a configuration file.
///
/// # Errors
///
/// Returns an error when the version is not known or a number is out of its bounds.
pub fn check_bounds(file: &FileConfig) -> (result: Result<(), String>)
    ensures
        reports(result, bounds_fault(*file)),
{
    if file.version != CONFIG_VERSION {
        return Err(
            join3(
                "unsupported configuration version ",
                decimal(file.version as u64).as_str(),
                "; expected 1",
            ),
        );
    }
    let cap: usize = match file.cap_bytes {
        Some(value) => value,
        None => DEFAULT_OUTPUT_CAP_BYTES,
    };
    if cap != 0 && !(MIN_OUTPUT_CAP_BYTES <= cap && cap <= MAX_OUTPUT_CAP_BYTES) {
        return Err("output.cap_bytes must be 0 or 1024 through 16777216".to_owned());
    }
    let bytes: usize = match file.recovery_cap_bytes {
        Some(value) => value,
        None => DEFAULT_RECOVERY_CAP_BYTES,
    };
    if !(MIN_RECOVERY_CAP_BYTES <= bytes && bytes <= MAX_RECOVERY_CAP_BYTES) {
        return Err("output.recovery_cap_bytes must be 1024 through 49152".to_owned());
    }
    let lines: usize = match file.recovery_cap_lines {
        Some(value) => value,
        None => DEFAULT_RECOVERY_CAP_LINES,
    };
    if !(MIN_RECOVERY_CAP_LINES <= lines && lines <= MAX_RECOVERY_CAP_LINES) {
        return Err("output.recovery_cap_lines must be 1 through 1900".to_owned());
    }
    Ok(())
}

/// A path that the configuration names, before links and the like are looked at.
///
/// # Errors
///
/// Returns an error when the path is empty.
pub fn configured_path(directory: &str, path: &str, field: &str) -> (result: Result<String, String>)
    ensures
        if path@.len() == 0 {
            result matches Err(error) && error@ == field@ + " must not be empty"@
        } else {
            result matches Ok(found) && found@ == joined(directory@, path@)
        },
{
    proof {
        reveal_strlit("");
        if path@.len() == 0 {
            assert(path@ =~= ""@);
        }
    }
    if same_text(path, "") {
        return Err(join2(field, " must not be empty"));
    }
    Ok(join_path(directory, path))
}

/// A rule pack that the configuration names.
#[derive(Clone, Debug)]
pub struct ConfiguredPack {
    pub id: String,
    pub path: String,
}

/// What became of the paths of a configuration file: each is an absolute path and what stands
/// there, or an error.
#[derive(Debug)]
pub struct ConfiguredPaths {
    pub default_archive: Result<String, String>,
    pub archive: Result<String, String>,
    pub packs: Vec<Result<ConfiguredPack, String>>,
}

/// The archive that a configuration names.
pub open spec fn chosen_archive(file: FileConfig, paths: ConfiguredPaths) -> Result<
    Seq<char>,
    Seq<char>,
> {
    match if file.archive_path is Some {
        paths.archive
    } else {
        paths.default_archive
    } {
        Ok(path) => Ok(path@),
        Err(error) => Err(error@),
    }
}

/// One of some packs has an id.
pub open spec fn has_pack(
    packs: Seq<Result<ConfiguredPack, String>>,
    count: nat,
    id: Seq<char>,
) -> bool {
    exists|i: int|
        0 <= i < count && #[trigger] packs[i] is Ok && packs[i]->Ok_0.id@ == id
}

/// The paths of the first packs, or the first error among them. An id must not come twice.
pub open spec fn chosen_packs(packs: Seq<Result<ConfiguredPack, String>>, count: nat) -> Result<
    Seq<Seq<char>>,
    Seq<char>,
>
    decreases count,
{
    if count == 0 {
        Ok(Seq::empty())
    } else {
        match chosen_packs(packs, (count - 1) as nat) {
            Err(error) => Err(error),
            Ok(paths) => match packs[count - 1] {
                Err(error) => Err(error@),
                Ok(pack) => if has_pack(packs, (count - 1) as nat, pack.id@) {
                    Err("configured rule pack id "@ + pack.id@ + " is duplicated"@)
                } else {
                    Ok(paths.push(pack.path@))
                },
            },
        }
    }
}

/// An error among the first packs stays the first one.
proof fn lemma_pack_error_stays(packs: Seq<Result<ConfiguredPack, String>>, few: nat, many: nat)
    requires
        few <= many,
        chosen_packs(packs, few) is Err,
    ensures
        chosen_packs(packs, many) == chosen_packs(packs, few),
    decreases many,
{
    if few < many {
        lemma_pack_error_stays(packs, few, (many - 1) as nat);
    }
}

/// The configuration that a file says, given what became of its paths.
pub open spec fn resolved(file: FileConfig, paths: ConfiguredPaths) -> Result<
    ConfigModel,
    Seq<char>,
> {
    match (
        bounds_fault(file),
        chosen_archive(file, paths),
        chosen_packs(paths.packs@, paths.packs@.len()),
    ) {
        (Some(error), _, _) => Err(error),
        (None, Err(error), _) => Err(error),
        (None, Ok(_), Err(error)) => Err(error),
        (None, Ok(archive_path), Ok(packs)) => Ok(
            ConfigModel {
                version: CONFIG_VERSION,
                pruning_enabled: or_default(file.pruning_enabled, true),
                cap_bytes: or_default(file.cap_bytes, DEFAULT_OUTPUT_CAP_BYTES),
                recovery_cap_bytes: or_default(file.recovery_cap_bytes, DEFAULT_RECOVERY_CAP_BYTES),
                recovery_cap_lines: or_default(file.recovery_cap_lines, DEFAULT_RECOVERY_CAP_LINES),
                archive_enabled: or_default(file.archive_enabled, true),
                archive_path,
                is_default_path: file.archive_path is None,
                packs,
            },
        ),
    }
}

fn resolve_packs(packs: &Vec<Result<ConfiguredPack, String>>) -> (result: Result<
    Vec<String>,
    String,
>)
    ensures
        match chosen_packs(packs@, packs@.len()) {
            Ok(paths) => result matches Ok(found) && texts(found@) == paths,
            Err(message) => result matches Err(error) && error@ == message,
        },
{
    let mut ids: Vec<String> = Vec::new();
    let mut paths: Vec<String> = Vec::new();
    let mut i: usize = 0;
    assert(texts(paths@) =~= Seq::empty());
    while i < packs.len()
        invariant
            i <= packs@.len(),
            ids@.len() == i,
            forall|j: int| 0 <= j < i ==> #[trigger] packs@[j] is Ok && packs@[j]->Ok_0.id@ == ids@[j]@,
            chosen_packs(packs@, i as nat) == Ok::<Seq<Seq<char>>, Seq<char>>(texts(paths@)),
        decreases packs@.len() - i,
    {
        match &packs[i] {
            Err(error) => {
                proof {
                    lemma_pack_error_stays(packs@, (i + 1) as nat, packs@.len());
                }
                return Err(error.clone());
            },
            Ok(pack) => {
                if list_contains(ids.as_slice(), pack.id.as_str()) {
                    proof {
                        let j = choose|j: int| 0 <= j < ids@.len() && #[trigger] ids@[j]@ == pack.id@;
                        assert(packs@[j] is Ok && packs@[j]->Ok_0.id@ == pack.id@);
                        assert(has_pack(packs@, i as nat, pack.id@));
                        lemma_pack_error_stays(packs@, (i + 1) as nat, packs@.len());
                    }
                    return Err(
                        join3("configured rule pack id ", pack.id.as_str(), " is duplicated"),
                    );
                }
                proof {
                    assert(!has_pack(packs@, i as nat, pack.id@)) by {
                        if has_pack(packs@, i as nat, pack.id@) {
                            let j = choose|j: int|
                                0 <= j < i && #[trigger] packs@[j] is Ok && packs@[j]->Ok_0.id@
                                    == pack.id@;
                            assert(ids@[j]@ == pack.id@);
                            assert(texts(ids@)[j] == pack.id@);
                        }
                    }
                }
                let ghost before = texts(paths@);
                ids.push(pack.id.clone());
                paths.push(pack.path.clone());
                assert(texts(paths@) =~= before.push(pack.path@));
            },
        }
        i += 1;
    }
    Ok(paths)
}

/// Fill in a configuration file.
///
/// # Errors
///
/// Returns an error when the version is not known, a number is out of its bounds, a path cannot be
/// used, or two packs have the same id.
pub fn resolve_document(file: &FileConfig, paths: ConfiguredPaths) -> (result: Result<
    ResolvedConfig,
    String,
>)
    ensures
        match resolved(*file, paths) {
            Ok(model) => result matches Ok(config) && config@ == model,
            Err(message) => result matches Err(error) && error@ == message,
        },
{
    if let Err(error) = check_bounds(file) {
        return Err(error);
    }
    let is_default_path = file.archive_path.is_none();
    let chosen = if is_default_path {
        paths.default_archive
    } else {
        paths.archive
    };
    let path = match chosen {
        Ok(path) => path,
        Err(error) => {
            return Err(error);
        },
    };
    let packs = match resolve_packs(&paths.packs) {
        Ok(packs) => packs,
        Err(error) => {
            return Err(error);
        },
    };
    Ok(
        ResolvedConfig {
            version: CONFIG_VERSION,
            pruning: PruningConfig {
                enabled: match file.pruning_enabled {
                    Some(value) => value,
                    None => true,
                },
            },
            output: OutputConfig {
                cap_bytes: match file.cap_bytes {
                    Some(value) => value,
                    None => DEFAULT_OUTPUT_CAP_BYTES,
                },
                recovery_cap_bytes: match file.recovery_cap_bytes {
                    Some(value) => value,
                    None => DEFAULT_RECOVERY_CAP_BYTES,
                },
                recovery_cap_lines: match file.recovery_cap_lines {
                    Some(value) => value,
                    None => DEFAULT_RECOVERY_CAP_LINES,
                },
            },
            archive: ArchiveConfig {
                enabled: match file.archive_enabled {
                    Some(value) => value,
                    None => true,
                },
                path,
                is_default_path,
            },
            rules: RulesConfig { packs },
        },
    )
}

/// The configuration that is loaded: what the file says, or the defaults where there is none.
pub open spec fn loaded(file: Result<Option<FileConfig>, String>, paths: ConfiguredPaths) -> Result<
    ConfigModel,
    Seq<char>,
> {
    match file {
        Err(reason) => Err(reason@),
        Ok(None) => match paths.default_archive {
            Ok(path) => Ok(default_config(path@)),
            Err(reason) => Err(reason@),
        },
        Ok(Some(document)) => resolved(document, paths),
    }
}

/// Load a configuration: what the file says, or the defaults where there is none.
///
/// # Errors
///
/// Returns an error when the file cannot be read or its contents cannot be used.
pub fn load(file: &Result<Option<FileConfig>, String>, paths: ConfiguredPaths) -> (result: Result<
    ResolvedConfig,
    String,
>)
    ensures
        match loaded(*file, paths) {
            Ok(model) => result matches Ok(config) && config@ == model,
            Err(message) => result matches Err(error) && error@ == message,
        },
{
    match file {
        Err(reason) => Err(reason.clone()),
        Ok(None) => defaults(paths.default_archive),
        Ok(Some(document)) => resolve_document(document, paths),
    }
}

/// The path of the archive, by the configuration.
///
/// # Errors
///
/// Returns an error when the configuration cannot be loaded.
pub fn archive_path(config: Result<ResolvedConfig, String>) -> (result: Result<String, String>)
    ensures
        match config {
            Ok(resolved) => result == Ok::<String, String>(resolved.archive.path),
            Err(error) => result == Err::<String, String>(error),
        },
{
    match config {
        Ok(resolved) => Ok(resolved.archive.path),
        Err(error) => Err(error),
    }
}

/// A digit of a hexadecimal number.
pub open spec fn hex_character(value: int) -> char {
    if value < 10 {
        (48 + value) as char
    } else {
        (87 + value) as char
    }
}

/// A character inside a JSON string.
pub open spec fn json_character(c: char) -> Seq<char> {
    if c == '"' || c == '\\' {
        seq!['\\', c]
    } else if c as int == 8 {
        seq!['\\', 'b']
    } else if c as int == 9 {
        seq!['\\', 't']
    } else if c as int == 10 {
        seq!['\\', 'n']
    } else if c as int == 12 {
        seq!['\\', 'f']
    } else if c as int == 13 {
        seq!['\\', 'r']
    } else if (c as int) < 32 {
        seq!['\\', 'u', '0', '0', hex_character(c as int / 16), hex_character(c as int % 16)]
    } else {
        seq![c]
    }
}

/// A text inside a JSON string.
pub open spec fn json_text(text: Seq<char>) -> Seq<char>
    decreases text.len(),
{
    if text.len() == 0 {
        Seq::empty()
    } else {
        json_text(text.drop_last()) + json_character(text.last())
    }
}

/// Some texts as JSON strings, with commas between them.
pub open spec fn json_items(values: Seq<Seq<char>>) -> Seq<char>
    decreases values.len(),
{
    if values.len() == 0 {
        Seq::empty()
    } else {
        let item = seq!['"'] + json_text(values.last()) + seq!['"'];
        if values.len() == 1 {
            item
        } else {
            json_items(values.drop_last()) + seq![','] + item
        }
    }
}

/// How a list of texts is written as JSON.
pub open spec fn json_list(values: Seq<Seq<char>>) -> Seq<char> {
    seq!['['] + json_items(values) + seq![']']
}

/// Calls `serde_json::to_string` on a list of texts, which writes a JSON array of strings without
/// spaces. Quotes, backslashes and control characters are escaped.
#[verifier::external_body]
fn list_as_json(values: &Vec<String>) -> (text: String)
    ensures
        text@ == json_list(texts(values@)),
{
    serde_json::to_string(values).unwrap_or_default()
}

/// A truth value as a text.
pub open spec fn truth(value: bool) -> Seq<char> {
    if value {
        "true"@
    } else {
        "false"@
    }
}

fn truth_text(value: bool) -> (text: String)
    ensures
        text@ == truth(value),
{
    if value {
        "true".to_owned()
    } else {
        "false".to_owned()
    }
}

/// The value of a field as a text.
pub open spec fn field_text(config: ConfigModel, key: Seq<char>) -> Result<Seq<char>, Seq<char>> {
    if key == "version"@ {
        Ok(digits(config.version as nat))
    } else if key == "pruning.enabled"@ {
        Ok(truth(config.pruning_enabled))
    } else if key == "output.cap_bytes"@ {
        Ok(digits(config.cap_bytes as nat))
    } else if key == "output.recovery_cap_bytes"@ {
        Ok(digits(config.recovery_cap_bytes as nat))
    } else if key == "output.recovery_cap_lines"@ {
        Ok(digits(config.recovery_cap_lines as nat))
    } else if key == "archive.enabled"@ {
        Ok(truth(config.archive_enabled))
    } else if key == "archive.path"@ {
        Ok(config.archive_path)
    } else if key == "rules.packs"@ {
        Ok(json_list(config.packs))
    } else {
        Err("unknown configuration field "@ + key)
    }
}

/// Show one field of a configuration.
///
/// # Errors
///
/// Returns an error when there is no such field.
pub fn get(config: &ResolvedConfig, key: &str) -> (result: Result<String, String>)
    ensures
        match field_text(config@, key@) {
            Ok(text) => result matches Ok(shown) && shown@ == text,
            Err(message) => result matches Err(error) && error@ == message,
        },
{
    if same_text(key, "version") {
        Ok(decimal(config.version as u64))
    } else if same_text(key, "pruning.enabled") {
        Ok(truth_text(config.pruning.enabled))
    } else if same_text(key, "output.cap_bytes") {
        Ok(decimal(config.output.cap_bytes as u64))
    } else if same_text(key, "output.recovery_cap_bytes") {
        Ok(decimal(config.output.recovery_cap_bytes as u64))
    } else if same_text(key, "output.recovery_cap_lines") {
        Ok(decimal(config.output.recovery_cap_lines as u64))
    } else if same_text(key, "archive.enabled") {
        Ok(truth_text(config.archive.enabled))
    } else if same_text(key, "archive.path") {
        Ok(config.archive.path.clone())
    } else if same_text(key, "rules.packs") {
        Ok(list_as_json(&config.rules.packs))
    } else {
        Err(join2("unknown configuration field ", key))
    }
}

/// A field that a configuration file may hold.
#[derive(Clone, Copy, Debug, PartialEq, Eq, Structural)]
pub enum Field {
    Version,
    PruningEnabled,
    CapBytes,
    RecoveryCapBytes,
    RecoveryCapLines,
    ArchiveEnabled,
    ArchivePath,
    Packs,
}

impl Field {
    /// The name of the field.
    pub open spec fn key(self) -> Seq<char> {
        match self {
            Field::Version => "version"@,
            Field::PruningEnabled => "pruning.enabled"@,
            Field::CapBytes => "output.cap_bytes"@,
            Field::RecoveryCapBytes => "output.recovery_cap_bytes"@,
            Field::RecoveryCapLines => "output.recovery_cap_lines"@,
            Field::ArchiveEnabled => "archive.enabled"@,
            Field::ArchivePath => "archive.path"@,
            Field::Packs => "rules.packs"@,
        }
    }

    /// The section that the field stands in.
    pub open spec fn section(self) -> Seq<char> {
        match self {
            Field::Version => ""@,
            Field::PruningEnabled => "pruning"@,
            Field::CapBytes | Field::RecoveryCapBytes | Field::RecoveryCapLines => "output"@,
            Field::ArchiveEnabled | Field::ArchivePath => "archive"@,
            Field::Packs => "rules"@,
        }
    }

    /// The name of the field in its section.
    pub open spec fn name(self) -> Seq<char> {
        match self {
            Field::Version => "version"@,
            Field::PruningEnabled | Field::ArchiveEnabled => "enabled"@,
            Field::CapBytes => "cap_bytes"@,
            Field::RecoveryCapBytes => "recovery_cap_bytes"@,
            Field::RecoveryCapLines => "recovery_cap_lines"@,
            Field::ArchivePath => "path"@,
            Field::Packs => "packs"@,
        }
    }

    /// The section that the field stands in, and its name there. The version stands in none.
    pub fn place(self) -> (place: (&'static str, &'static str))
        ensures
            place.0@ == self.section(),
            place.1@ == self.name(),
    {
        match self {
            Field::Version => ("", "version"),
            Field::PruningEnabled => ("pruning", "enabled"),
            Field::CapBytes => ("output", "cap_bytes"),
            Field::RecoveryCapBytes => ("output", "recovery_cap_bytes"),
            Field::RecoveryCapLines => ("output", "recovery_cap_lines"),
            Field::ArchiveEnabled => ("archive", "enabled"),
            Field::ArchivePath => ("archive", "path"),
            Field::Packs => ("rules", "packs"),
        }
    }
}

/// The field with a name.
pub open spec fn field_of(key: Seq<char>) -> Option<Field> {
    if key == "version"@ {
        Some(Field::Version)
    } else if key == "pruning.enabled"@ {
        Some(Field::PruningEnabled)
    } else if key == "output.cap_bytes"@ {
        Some(Field::CapBytes)
    } else if key == "output.recovery_cap_bytes"@ {
        Some(Field::RecoveryCapBytes)
    } else if key == "output.recovery_cap_lines"@ {
        Some(Field::RecoveryCapLines)
    } else if key == "archive.enabled"@ {
        Some(Field::ArchiveEnabled)
    } else if key == "archive.path"@ {
        Some(Field::ArchivePath)
    } else if key == "rules.packs"@ {
        Some(Field::Packs)
    } else {
        None
    }
}

/// Find the field with a name.
///
/// # Errors
///
/// Returns an error when there is no such field.
pub fn parse_field(key: &str) -> (result: Result<Field, String>)
    ensures
        match field_of(key@) {
            Some(field) => result == Ok::<Field, String>(field),
            None => result matches Err(error) && error@ == "unknown configuration field "@ + key@,
        },
{
    if same_text(key, "version") {
        Ok(Field::Version)
    } else if same_text(key, "pruning.enabled") {
        Ok(Field::PruningEnabled)
    } else if same_text(key, "output.cap_bytes") {
        Ok(Field::CapBytes)
    } else if same_text(key, "output.recovery_cap_bytes") {
        Ok(Field::RecoveryCapBytes)
    } else if same_text(key, "output.recovery_cap_lines") {
        Ok(Field::RecoveryCapLines)
    } else if same_text(key, "archive.enabled") {
        Ok(Field::ArchiveEnabled)
    } else if same_text(key, "archive.path") {
        Ok(Field::ArchivePath)
    } else if same_text(key, "rules.packs") {
        Ok(Field::Packs)
    } else {
        Err(join2("unknown configuration field ", key))
    }
}

/// A value that a field is set to.
#[derive(Clone, Debug)]
pub enum FieldValue {
    Boolean(bool),
    Integer(i64),
    Text(String),
    List(Vec<String>),
}

impl View for FieldValue {
    type V = ValueModel;

    open spec fn view(&self) -> ValueModel {
        match self {
            FieldValue::Boolean(value) => ValueModel::Boolean(*value),
            FieldValue::Integer(value) => ValueModel::Integer(*value),
            FieldValue::Text(text) => ValueModel::Text(text@),
            FieldValue::List(values) => ValueModel::List(texts(values@)),
        }
    }
}

/// What stands in a file where a section should be.
#[derive(Clone, Copy, Debug, PartialEq, Eq, Structural)]
pub enum SectionForm {
    Missing,
    Table,
    InlineTable,
    Other,
}

/// The value that an argument gives to a field that is true or false.
pub open spec fn boolean_of(key: Seq<char>, argument: Seq<char>) -> Result<bool, Seq<char>> {
    if argument == "true"@ {
        Ok(true)
    } else if argument == "false"@ {
        Ok(false)
    } else {
        Err(key + " must be true or false"@)
    }
}

/// Read a truth value.
///
/// # Errors
///
/// Returns an error when the argument is neither `true` nor `false`.
pub fn parse_boolean(key: &str, argument: &str) -> (result: Result<bool, String>)
    ensures
        verdict(result) == boolean_of(key@, argument@),
{
    if same_text(argument, "true") {
        Ok(true)
    } else if same_text(argument, "false") {
        Ok(false)
    } else {
        Err(join2(key, " must be true or false"))
    }
}

/// The value that an argument gives to a field that is a number.
pub open spec fn integer_of(key: Seq<char>, argument: Seq<char>) -> Result<i64, Seq<char>> {
    if !is_canonical_number(argument) {
        Err(key + " must be a canonical unsigned integer"@)
    } else if number(argument) > i64::MAX {
        Err(key + " integer is too large"@)
    } else {
        Ok(number(argument) as i64)
    }
}

/// Read a number.
///
/// # Errors
///
/// Returns an error when the argument is not a number without leading zeros, or is too large.
pub fn parse_integer(key: &str, argument: &str) -> (result: Result<i64, String>)
    ensures
        verdict(result) == integer_of(key@, argument@),
{
    if !canonical_number(argument) {
        return Err(join2(key, " must be a canonical unsigned integer"));
    }
    match parse_number(argument) {
        Some(value) => if value <= i64::MAX as u64 {
            Ok(value as i64)
        } else {
            Err(join2(key, " integer is too large"))
        },
        None => Err(join2(key, " integer is too large")),
    }
}

/// Every field of a configuration that can be used is within its bounds.
pub proof fn lemma_resolved_within_bounds(
    file: FileConfig,
    paths: ConfiguredPaths,
    config: ConfigModel,
)
    requires
        resolved(file, paths) == Ok::<ConfigModel, Seq<char>>(config),
    ensures
        config.version == CONFIG_VERSION,
        config.cap_bytes == 0 || MIN_OUTPUT_CAP_BYTES <= config.cap_bytes <= MAX_OUTPUT_CAP_BYTES,
        MIN_RECOVERY_CAP_BYTES <= config.recovery_cap_bytes <= MAX_RECOVERY_CAP_BYTES,
        MIN_RECOVERY_CAP_LINES <= config.recovery_cap_lines <= MAX_RECOVERY_CAP_LINES,
{
}

/// A file that says nothing but the version is as good as none.
pub proof fn lemma_empty_file_is_default(file: FileConfig, paths: ConfiguredPaths)
    requires
        file.version == CONFIG_VERSION,
        file.pruning_enabled is None,
        file.cap_bytes is None,
        file.recovery_cap_bytes is None,
        file.recovery_cap_lines is None,
        file.archive_enabled is None,
        file.archive_path is None,
        paths.packs@.len() == 0,
    ensures
        paths.default_archive matches Ok(path) ==> resolved(file, paths) == Ok::<
            ConfigModel,
            Seq<char>,
        >(default_config(path@)),
{
}

/// Set a field of the configuration file at a path, given what it holds. The result is the text to be
/// stored.
///
/// # Errors
///
/// Returns an error when the file cannot be read or is not TOML, when there is no such field, when its
/// section is not one, when it takes another number of values, or when a value is not of its kind.
pub fn set(body: &Result<Option<String>, String>, path: &str, key: &str, arguments: &[String]) -> (result:
    Result<String, String>)
    ensures
        match editable(*body, path@) {
            Err(fault) => result matches Err(error) && error@ == fault,
            Ok(contents) => is_written(result, edited(contents, key@, texts(arguments@))),
        },
{
    let mut document = editable_document(body, path)?;
    edit_document(&mut document, key, arguments)?;
    Ok(written_document(&document))
}

/// Remove a field of the configuration file at a path, given what it holds. The result is the text to
/// be stored.
///
/// # Errors
///
/// Returns an error when the field is the version, when the file cannot be read or is not TOML, and
/// when there is no such field or it is not set.
pub fn unset(body: &Result<Option<String>, String>, path: &str, key: &str) -> (result: Result<
    String,
    String,
>)
    ensures
        if key@ == "version"@ {
            result matches Err(error) && error@ == "version cannot be unset"@
        } else {
            match editable(*body, path@) {
                Err(fault) => result matches Err(error) && error@ == fault,
                Ok(contents) => is_written(result, removed(contents, key@)),
            }
        },
{
    if same_text(key, "version") {
        return Err("version cannot be unset".to_owned());
    }
    let mut document = editable_document(body, path)?;
    remove_from_document(&mut document, key)?;
    Ok(written_document(&document))
}

} // verus!
