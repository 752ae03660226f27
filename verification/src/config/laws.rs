//! What holds of configurations, told by names and numbers.
use vstd::prelude::*;

use super::{
    ConfigModel, ConfiguredPack, ConfiguredPaths, FileConfig, archive_place, chosen_packs,
    config_place, default_config, field_of, field_text, has_pack, loaded, resolved,
};
use crate::text::{lemma_digits_round_trip, number};

verus! {

/// A directory with an absolute name that does not end in a slash.
pub open spec fn is_directory(name: Seq<char>) -> bool {
    name.len() > 1 && name[0] == '/' && name.last() != '/'
}

proof fn lemma_directory(name: Seq<char>)
    ensures
        is_directory(name) ==> super::is_absolute(name) && !crate::text::closes_with(name, "/"@),
        name.len() > 0 && name[0] != '/' ==> !super::is_absolute(name),
{
    reveal_strlit("/");
    if is_directory(name) {
        assert(name.take(1) =~= "/"@);
        if crate::text::closes_with(name, "/"@) {
            assert(name.subrange(name.len() - 1, name.len() as int)[0] == name.last());
        }
    }
    if name.len() > 0 && super::is_absolute(name) {
        assert(name.take(1)[0] == name[0]);
    }
}

/// The directories that the environment names for configurations and for data come first, the home
/// directory second; each must be absolute.
pub proof fn lemma_places_of_files(directory: Seq<char>, other: Option<Seq<char>>)
    ensures
        is_directory(directory) ==> {
            &&& config_place(Some(directory), other) == Ok::<Seq<char>, Seq<char>>(
                directory + "/"@ + "yarp/config.toml"@,
            )
            &&& config_place(None, Some(directory)) == Ok::<Seq<char>, Seq<char>>(
                directory + "/"@ + ".config/yarp/config.toml"@,
            )
            &&& archive_place(Some(directory), other) == Ok::<Seq<char>, Seq<char>>(
                directory + "/"@ + "yarp/tool-calls.sqlite3"@,
            )
            &&& archive_place(None, Some(directory)) == Ok::<Seq<char>, Seq<char>>(
                directory + "/"@ + ".local/share/yarp/tool-calls.sqlite3"@,
            )
        },
        directory.len() > 0 && directory[0] != '/' ==> {
            &&& config_place(Some(directory), other) is Err
            &&& config_place(None, Some(directory)) is Err
            &&& archive_place(Some(directory), other) is Err
            &&& archive_place(None, Some(directory)) is Err
        },
        config_place(None, None) is Err,
        archive_place(None, None) is Err,
{
    lemma_directory(directory);
    reveal_strlit("yarp/config.toml");
    reveal_strlit(".config/yarp/config.toml");
    reveal_strlit("yarp/tool-calls.sqlite3");
    reveal_strlit(".local/share/yarp/tool-calls.sqlite3");
    lemma_directory("yarp/config.toml"@);
    lemma_directory(".config/yarp/config.toml"@);
    lemma_directory("yarp/tool-calls.sqlite3"@);
    lemma_directory(".local/share/yarp/tool-calls.sqlite3"@);
}

/// The packs can all be used, and no two of them have the same id.
pub open spec fn are_usable(packs: Seq<Result<ConfiguredPack, String>>) -> bool {
    &&& forall|i: int| 0 <= i < packs.len() ==> #[trigger] packs[i] is Ok
    &&& forall|i: int, j: int|
        0 <= i < j < packs.len() ==> (#[trigger] packs[i])->Ok_0.id@ != (
        #[trigger] packs[j])->Ok_0.id@
}

proof fn lemma_packs(packs: Seq<Result<ConfiguredPack, String>>, count: nat)
    requires
        count <= packs.len(),
    ensures
        chosen_packs(packs, count) is Ok <==> are_usable(packs.take(count as int)),
        chosen_packs(packs, count) matches Ok(paths) ==> paths.len() == count && forall|i: int|
            0 <= i < count ==> #[trigger] paths[i] == packs[i]->Ok_0.path@,
    decreases count,
{
    let part = packs.take(count as int);
    if count > 0 {
        let before = (count - 1) as nat;
        let front = packs.take(before as int);
        lemma_packs(packs, before);
        assert forall|i: int| 0 <= i < before implies front[i] == packs[i] && part[i] == packs[i] by {
        }
        assert(part[count - 1] == packs[count - 1]);
        if are_usable(part) {
            assert forall|i: int| 0 <= i < front.len() implies #[trigger] front[i] is Ok by {
                assert(part[i] is Ok);
            }
            assert forall|i: int, j: int| 0 <= i < j < front.len() implies (
            #[trigger] front[i])->Ok_0.id@ != (#[trigger] front[j])->Ok_0.id@ by {
                assert(part[i]->Ok_0.id@ != part[j]->Ok_0.id@);
            }
            let id = packs[count - 1]->Ok_0.id@;
            if has_pack(packs, before, id) {
                let i = choose|i: int|
                    0 <= i < before && #[trigger] packs[i] is Ok && packs[i]->Ok_0.id@ == id;
                assert(part[i]->Ok_0.id@ != part[count - 1]->Ok_0.id@);
            }
        }
        if chosen_packs(packs, count) is Ok {
            assert forall|i: int| 0 <= i < part.len() implies #[trigger] part[i] is Ok by {
                if i < before {
                    assert(front[i] is Ok);
                }
            }
            assert forall|i: int, j: int| 0 <= i < j < part.len() implies (
            #[trigger] part[i])->Ok_0.id@ != (#[trigger] part[j])->Ok_0.id@ by {
                assert(front[i] is Ok);
                assert(packs[i] is Ok);
                if j < before {
                    assert(front[i]->Ok_0.id@ != front[j]->Ok_0.id@);
                }
            }
        }
    }
}

/// Which files can be used as configurations, and what they say: the numbers are within their
/// bounds, every field that the file leaves out has its default, and the packs are usable and differ.
pub proof fn lemma_usable_files(file: FileConfig, paths: ConfiguredPaths)
    ensures
        resolved(file, paths) is Ok <==> {
            &&& file.version == 1
            &&& file.cap_bytes matches Some(cap) ==> cap == 0 || 1_024 <= cap <= 16_777_216
            &&& file.recovery_cap_bytes matches Some(bytes) ==> 1_024 <= bytes <= 49_152
            &&& file.recovery_cap_lines matches Some(lines) ==> 1 <= lines <= 1_900
            &&& file.archive_path is Some ==> paths.archive is Ok
            &&& file.archive_path is None ==> paths.default_archive is Ok
            &&& are_usable(paths.packs@)
        },
        resolved(file, paths) matches Ok(config) ==> {
            &&& config.version == 1
            &&& file.pruning_enabled matches Some(value) ==> config.pruning_enabled == value
            &&& file.pruning_enabled is None ==> config.pruning_enabled
            &&& file.cap_bytes matches Some(value) ==> config.cap_bytes == value
            &&& file.cap_bytes is None ==> config.cap_bytes == 5_120
            &&& file.recovery_cap_bytes matches Some(value) ==> config.recovery_cap_bytes == value
            &&& file.recovery_cap_bytes is None ==> config.recovery_cap_bytes == 32_768
            &&& file.recovery_cap_lines matches Some(value) ==> config.recovery_cap_lines == value
            &&& file.recovery_cap_lines is None ==> config.recovery_cap_lines == 1_900
            &&& file.archive_enabled matches Some(value) ==> config.archive_enabled == value
            &&& file.archive_enabled is None ==> config.archive_enabled
            &&& file.archive_path is Some ==> config.archive_path == paths.archive->Ok_0@
                && !config.is_default_path
            &&& file.archive_path is None ==> config.archive_path == paths.default_archive->Ok_0@
                && config.is_default_path
            &&& config.packs.len() == paths.packs@.len()
            &&& forall|i: int|
                0 <= i < config.packs.len() ==> #[trigger] config.packs[i]
                    == paths.packs@[i]->Ok_0.path@
        },
{
    lemma_packs(paths.packs@, paths.packs@.len());
    assert(paths.packs@.take(paths.packs@.len() as int) =~= paths.packs@);
}

/// Without a file everything has its default: output is pruned and archived, no pack is used.
pub proof fn lemma_no_file_means_defaults(paths: ConfiguredPaths)
    ensures
        paths.default_archive matches Ok(path) ==> loaded(Ok(None), paths) == Ok::<
            ConfigModel,
            Seq<char>,
        >(
            ConfigModel {
                version: 1,
                pruning_enabled: true,
                cap_bytes: 5_120,
                recovery_cap_bytes: 32_768,
                recovery_cap_lines: 1_900,
                archive_enabled: true,
                archive_path: path@,
                is_default_path: true,
                packs: Seq::empty(),
            },
        ),
        paths.default_archive is Err ==> loaded(Ok(None), paths) is Err,
        default_config(Seq::empty()).archive_enabled,
{
}

/// Each field is shown under its name: a number by its digits, a truth value by its word, a path as
/// it is. There is no other field.
pub proof fn lemma_shown_fields(config: ConfigModel, key: Seq<char>)
    ensures
        key == "version"@ ==> (field_text(config, key) matches Ok(text) && number(text)
            == config.version),
        key == "output.cap_bytes"@ ==> (field_text(config, key) matches Ok(text) && number(text)
            == config.cap_bytes),
        key == "output.recovery_cap_bytes"@ ==> (field_text(config, key) matches Ok(text) && number(
            text,
        ) == config.recovery_cap_bytes),
        key == "output.recovery_cap_lines"@ ==> (field_text(config, key) matches Ok(text) && number(
            text,
        ) == config.recovery_cap_lines),
        key == "pruning.enabled"@ ==> field_text(config, key) == Ok::<Seq<char>, Seq<char>>(
            if config.pruning_enabled {
                "true"@
            } else {
                "false"@
            },
        ),
        key == "archive.enabled"@ ==> field_text(config, key) == Ok::<Seq<char>, Seq<char>>(
            if config.archive_enabled {
                "true"@
            } else {
                "false"@
            },
        ),
        key == "archive.path"@ ==> field_text(config, key) == Ok::<Seq<char>, Seq<char>>(
            config.archive_path,
        ),
        key == "rules.packs"@ && config.packs.len() == 0 ==> field_text(config, key) == Ok::<
            Seq<char>,
            Seq<char>,
        >(seq!['[', ']']),
        field_text(config, key) is Ok <==> field_of(key) is Some,
{
    lemma_digits_round_trip(config.version as nat);
    lemma_digits_round_trip(config.cap_bytes as nat);
    lemma_digits_round_trip(config.recovery_cap_bytes as nat);
    lemma_digits_round_trip(config.recovery_cap_lines as nat);
    reveal_strlit("version");
    reveal_strlit("output.cap_bytes");
    reveal_strlit("output.recovery_cap_bytes");
    reveal_strlit("output.recovery_cap_lines");
    reveal_strlit("pruning.enabled");
    reveal_strlit("archive.enabled");
    reveal_strlit("archive.path");
    reveal_strlit("rules.packs");
    assert("version"@.len() == 7 && "output.cap_bytes"@.len() == 16
        && "output.recovery_cap_bytes"@.len() == 25 && "output.recovery_cap_lines"@.len() == 25
        && "output.recovery_cap_bytes"@[20] == 'b' && "output.recovery_cap_lines"@[20] == 'l'
        && "pruning.enabled"@.len() == 15 && "archive.enabled"@.len() == 15
        && "pruning.enabled"@[0] == 'p' && "archive.enabled"@[0] == 'a' && "archive.path"@.len()
        == 12 && "rules.packs"@.len() == 11);
    if config.packs.len() == 0 {
        assert(super::json_list(config.packs) =~= seq!['[', ']']);
    }
}

} // verus!
