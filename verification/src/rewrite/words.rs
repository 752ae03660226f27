//! The words of a command: assignments, setup commands and command wrappers.
use vstd::prelude::*;

use crate::text::{chars, is_one_of, one_of, opens_with, same_text, starts_with, texts};

verus! {

/// An ASCII letter.
pub open spec fn is_letter(c: char) -> bool {
    'a' <= c <= 'z' || 'A' <= c <= 'Z'
}

/// The name of a shell variable.
pub open spec fn is_name(value: Seq<char>) -> bool {
    &&& value.len() > 0
    &&& value[0] == '_' || is_letter(value[0])
    &&& forall|i: int|
        0 <= i < value.len() ==> (#[trigger] value[i]) == '_' || is_letter(value[i])
            || crate::text::is_digit(value[i])
}

/// A word that assigns a variable.
pub open spec fn assigns(word: Seq<char>) -> bool {
    exists|i: int| 0 <= i < word.len() && #[trigger] word[i] == '=' && is_name(word.take(i))
}

/// Every word assigns a variable.
pub open spec fn only_assignments(words: Seq<Seq<char>>) -> bool {
    forall|i: int| 0 <= i < words.len() ==> assigns(#[trigger] words[i])
}

/// An option of `set` that prints nothing.
pub open spec fn is_quiet_option(value: Seq<char>) -> bool {
    one_of(
        value,
        seq![
            "-e", "+e", "-u", "+u", "-f", "+f", "-C", "+C", "-m", "+m", "-b", "+b", "-n", "+n",
            "-E", "+E", "-T", "+T", "-P", "+P", "-h", "+h", "-k", "+k", "-p", "+p",
        ],
    )
}

/// A command that prepares the shell for others and prints nothing when it succeeds.
pub open spec fn is_setup(words: Seq<Seq<char>>) -> bool {
    ||| words.len() == 1 && one_of(words[0], seq![":", "true", "false"])
    ||| words.len() == 2 && words[0] == "cd"@ && !opens_with(words[1], "-"@)
    ||| words.len() == 2 && words[0] == "set"@ && is_quiet_option(words[1])
    ||| words.len() == 3 && words[0] == "set"@ && one_of(words[1], seq!["-o", "+o"]) && words[2]
        == "pipefail"@
    ||| words.len() > 1 && words[0] == "export"@ && forall|i: int|
        1 <= i < words.len() ==> assigns(#[trigger] words[i]) || is_name(words[i])
    ||| words.len() == 2 && words[0] == "umask"@ && !opens_with(words[1], "-"@)
}

/// A setup command that may print a diagnostic.
pub open spec fn may_emit(words: Seq<Seq<char>>) -> bool {
    only_assignments(words) || words.len() > 0 && one_of(words[0], seq!["cd", "export", "umask"])
}

/// The words after the assignments in front.
pub open spec fn after_assignments(words: Seq<Seq<char>>) -> Seq<Seq<char>>
    decreases words.len(),
{
    if words.len() > 0 && assigns(words[0]) {
        after_assignments(words.drop_first())
    } else {
        words
    }
}

/// The words after `--`, if that comes first.
pub open spec fn after_dashes(words: Seq<Seq<char>>) -> Seq<Seq<char>> {
    if words.len() > 0 && words[0] == "--"@ {
        words.drop_first()
    } else {
        words
    }
}

/// The words without a command wrapper in front.
pub open spec fn unwrapped(words: Seq<Seq<char>>) -> Seq<Seq<char>> {
    if words.len() == 0 {
        words
    } else if words[0] == "env"@ {
        after_assignments(after_dashes(words.drop_first()))
    } else if one_of(words[0], seq!["command", "exec"]) {
        after_dashes(words.drop_first())
    } else if words[0] == "time"@ && words.len() > 1 && !opens_with(words[1], "-"@) {
        words.drop_first()
    } else if words[0] == "timeout"@ && words.len() >= 3 && !opens_with(words[1], "-"@) {
        words.skip(2)
    } else {
        words
    }
}

/// The words of the command that makes the output; `None` where there is no such command.
pub open spec fn output_command(words: Seq<Seq<char>>) -> Result<
    Option<Seq<Seq<char>>>,
    Seq<char>,
> {
    let rest = unwrapped(after_assignments(words));
    if is_setup(words) || rest.len() == 0 {
        Ok(None)
    } else if one_of(rest[0], seq!["env", "command", "exec", "time", "timeout"]) {
        Err("compound command uses an unsupported command wrapper"@)
    } else {
        Ok(Some(rest))
    }
}

/// What a command says about the status of later pipelines.
pub open spec fn pipefail_of(words: Seq<Seq<char>>) -> Option<bool> {
    if words.len() == 3 && words[0] == "set"@ && words[2] == "pipefail"@ {
        if words[1] == "-o"@ {
            Some(true)
        } else if words[1] == "+o"@ {
            Some(false)
        } else {
            None
        }
    } else {
        None
    }
}

fn letter(c: char) -> (found: bool)
    ensures
        found == is_letter(c),
{
    ('a' <= c && c <= 'z') || ('A' <= c && c <= 'Z')
}

fn name_character(c: char) -> (found: bool)
    ensures
        found == (c == '_' || is_letter(c) || crate::text::is_digit(c)),
{
    c == '_' || letter(c) || ('0' <= c && c <= '9')
}

fn is_name_prefix(characters: &[char], end: usize) -> (found: bool)
    requires
        end <= characters@.len(),
    ensures
        found == is_name(characters@.take(end as int)),
{
    let ghost name = characters@.take(end as int);
    if end == 0 || !(characters[0] == '_' || letter(characters[0])) {
        return false;
    }
    let mut i: usize = 0;
    while i < end
        invariant
            i <= end <= characters@.len(),
            name == characters@.take(end as int),
            forall|j: int|
                0 <= j < i ==> (#[trigger] name[j]) == '_' || is_letter(name[j])
                    || crate::text::is_digit(name[j]),
        decreases end - i,
    {
        if !name_character(characters[i]) {
            assert(name[i as int] == characters@[i as int]);
            return false;
        }
        i += 1;
    }
    true
}

/// Whether a text is the name of a shell variable.
pub fn is_identifier(value: &str) -> (found: bool)
    ensures
        found == is_name(value@),
{
    let characters = chars(value);
    assert(characters@.take(characters@.len() as int) =~= characters@);
    is_name_prefix(characters.as_slice(), characters.len())
}

/// Whether a word assigns a variable.
pub fn is_assignment(word: &str) -> (found: bool)
    ensures
        found == assigns(word@),
{
    let characters = chars(word);
    let mut i: usize = 0;
    while i < characters.len()
        invariant
            i <= characters.len(),
            characters@ == word@,
            forall|j: int| 0 <= j < i ==> #[trigger] word@[j] != '=',
        decreases characters.len() - i,
    {
        if characters[i] == '=' {
            proof {
                assert forall|j: int| i < j < word@.len() && #[trigger] word@[j]
                    == '=' implies !is_name(word@.take(j)) by {
                    assert(word@.take(j)[i as int] == '=');
                }
            }
            return is_name_prefix(characters.as_slice(), i);
        }
        i += 1;
    }
    false
}

/// Whether every word assigns a variable.
pub fn all_assignments(words: &[String]) -> (found: bool)
    ensures
        found == only_assignments(texts(words@)),
{
    let ghost all = texts(words@);
    let mut i: usize = 0;
    while i < words.len()
        invariant
            i <= words.len(),
            all == texts(words@),
            forall|j: int| 0 <= j < i ==> assigns(#[trigger] all[j]),
        decreases words.len() - i,
    {
        assert(all[i as int] == words@[i as int]@);
        if !is_assignment(words[i].as_str()) {
            return false;
        }
        i += 1;
    }
    true
}

fn is_quiet_set_flag(value: &str) -> (found: bool)
    ensures
        found == is_quiet_option(value@),
{
    is_one_of(
        value,
        &[
            "-e", "+e", "-u", "+u", "-f", "+f", "-C", "+C", "-m", "+m", "-b", "+b", "-n", "+n",
            "-E", "+E", "-T", "+T", "-P", "+P", "-h", "+h", "-k", "+k", "-p", "+p",
        ],
    )
}

fn exports_only(words: &[String]) -> (found: bool)
    requires
        words@.len() > 0,
    ensures
        found == forall|i: int|
            1 <= i < words@.len() ==> assigns(#[trigger] texts(words@)[i]) || is_name(
                texts(words@)[i],
            ),
{
    let ghost all = texts(words@);
    let mut i: usize = 1;
    while i < words.len()
        invariant
            1 <= i <= words.len(),
            all == texts(words@),
            forall|j: int| 1 <= j < i ==> assigns(#[trigger] all[j]) || is_name(all[j]),
        decreases words.len() - i,
    {
        assert(all[i as int] == words@[i as int]@);
        let value = words[i].as_str();
        if !is_assignment(value) && !is_identifier(value) {
            return false;
        }
        i += 1;
    }
    true
}

/// Whether a command prepares the shell for others.
pub fn is_setup_command(words: &[String]) -> (found: bool)
    ensures
        found == is_setup(texts(words@)),
{
    let ghost all = texts(words@);
    if words.len() == 0 {
        return false;
    }
    assert(all[0] == words@[0]@);
    let program = words[0].as_str();
    if words.len() == 1 {
        return is_one_of(program, &[":", "true", "false"]);
    }
    assert(all[1] == words@[1]@);
    let second = words[1].as_str();
    if same_text(program, "export") {
        proof {
            assert("export"@ != "cd"@ && "export"@ != "set"@ && "export"@ != "umask"@) by {
                reveal_strlit("export");
                reveal_strlit("cd");
                reveal_strlit("set");
                reveal_strlit("umask");
            }
        }
        return exports_only(words);
    }
    if words.len() == 2 {
        return (same_text(program, "cd") && !starts_with(second, "-")) || (same_text(program, "set")
            && is_quiet_set_flag(second)) || (same_text(program, "umask") && !starts_with(
            second,
            "-",
        ));
    }
    assert(all[2] == words@[2]@);
    words.len() == 3 && same_text(program, "set") && is_one_of(second, &["-o", "+o"]) && same_text(
        words[2].as_str(),
        "pipefail",
    )
}

/// Whether a setup command may print a diagnostic.
pub fn setup_may_emit(words: &[String]) -> (found: bool)
    ensures
        found == may_emit(texts(words@)),
{
    if all_assignments(words) {
        return true;
    }
    if words.len() == 0 {
        return false;
    }
    assert(texts(words@)[0] == words@[0]@);
    is_one_of(words[0].as_str(), &["cd", "export", "umask"])
}

fn skip_assignments(words: &[String]) -> (rest: &[String])
    ensures
        texts(rest@) == after_assignments(texts(words@)),
{
    let ghost all = texts(words@);
    let mut i: usize = 0;
    assert(all.skip(0) =~= all);
    while i < words.len() && is_assignment(words[i].as_str())
        invariant
            i <= words.len(),
            all == texts(words@),
            after_assignments(all) == after_assignments(all.skip(i as int)),
        decreases words.len() - i,
    {
        assert(all.skip(i as int)[0] == words@[i as int]@);
        assert(all.skip(i as int).drop_first() =~= all.skip(i + 1));
        i += 1;
    }
    proof {
        if i < words@.len() {
            assert(all.skip(i as int)[0] == words@[i as int]@);
        }
    }
    let rest: &[String] = &words[i..words.len()];
    assert(texts(rest@) =~= all.skip(i as int));
    rest
}

fn skip(words: &[String], count: usize) -> (rest: &[String])
    requires
        count <= words@.len(),
    ensures
        texts(rest@) == texts(words@).skip(count as int),
{
    let rest: &[String] = &words[count..words.len()];
    assert(texts(rest@) =~= texts(words@).skip(count as int));
    rest
}

fn skip_dashes(words: &[String]) -> (rest: &[String])
    ensures
        texts(rest@) == after_dashes(texts(words@)),
{
    if words.len() == 0 {
        return words;
    }
    assert(texts(words@)[0] == words@[0]@);
    if same_text(words[0].as_str(), "--") {
        let rest = skip(words, 1);
        assert(texts(rest@) =~= texts(words@).drop_first());
        return rest;
    }
    words
}

fn unwrap_command(words: &[String]) -> (rest: &[String])
    ensures
        texts(rest@) == unwrapped(texts(words@)),
{
    let ghost all = texts(words@);
    if words.len() == 0 {
        return words;
    }
    assert(all[0] == words@[0]@);
    assert(all.skip(1) =~= all.drop_first());
    let program = words[0].as_str();
    if same_text(program, "env") {
        return skip_assignments(skip_dashes(skip(words, 1)));
    }
    if is_one_of(program, &["command", "exec"]) {
        return skip_dashes(skip(words, 1));
    }
    if words.len() == 1 {
        return words;
    }
    assert(all[1] == words@[1]@);
    let dashed = starts_with(words[1].as_str(), "-");
    if same_text(program, "time") && !dashed {
        return skip(words, 1);
    }
    if same_text(program, "timeout") && words.len() >= 3 && !dashed {
        return skip(words, 2);
    }
    words
}

/// The words of the command that makes the output; `None` where there is no such command.
///
/// # Errors
///
/// Returns an error when the command stands behind a wrapper that is not understood.
pub fn normalize_result_words(words: &[String]) -> (result: Result<Option<&[String]>, String>)
    ensures
        match output_command(texts(words@)) {
            Err(fault) => result matches Err(error) && error@ == fault,
            Ok(None) => result matches Ok(None),
            Ok(Some(rest)) => result matches Ok(Some(found)) && texts(found@) == rest,
        },
{
    if is_setup_command(words) {
        return Ok(None);
    }
    let rest = unwrap_command(skip_assignments(words));
    if rest.len() == 0 {
        return Ok(None);
    }
    assert(texts(rest@)[0] == rest@[0]@);
    if is_one_of(rest[0].as_str(), &["env", "command", "exec", "time", "timeout"]) {
        return Err("compound command uses an unsupported command wrapper".to_owned());
    }
    Ok(Some(rest))
}

/// What a command says about the status of later pipelines.
pub fn pipefail_setting(words: &[String]) -> (setting: Option<bool>)
    ensures
        setting == pipefail_of(texts(words@)),
{
    if words.len() != 3 {
        return None;
    }
    let ghost all = texts(words@);
    assert(all[0] == words@[0]@ && all[1] == words@[1]@ && all[2] == words@[2]@);
    if same_text(words[0].as_str(), "set") && same_text(words[2].as_str(), "pipefail") {
        if same_text(words[1].as_str(), "-o") {
            return Some(true);
        }
        if same_text(words[1].as_str(), "+o") {
            return Some(false);
        }
    }
    None
}

} // verus!
