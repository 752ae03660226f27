//! The programs that may stand behind a reduced command in a pipeline, and their arguments.
use vstd::prelude::*;

use crate::text::{
    all_digits, chars, is_digit, is_one_of, join2, one_of, opens_with, reports, same_text,
    starts_with, texts,
};

verus! {

/// The arguments from `from` on name standard input alone.
pub open spec fn reads_stdin(arguments: Seq<Seq<char>>, from: int, operands: bool) -> bool
    decreases arguments.len() - from,
{
    if from < 0 || from >= arguments.len() {
        true
    } else if arguments[from] == "--"@ && !operands {
        reads_stdin(arguments, from + 1, true)
    } else {
        arguments[from] == "-"@ && reads_stdin(arguments, from + 1, operands)
    }
}

/// What is wrong with the arguments of `cat`.
pub open spec fn stdin_fault(arguments: Seq<Seq<char>>) -> Option<Seq<char>> {
    if reads_stdin(arguments, 0, false) {
        None
    } else {
        Some("pipeline transform must read only standard input"@)
    }
}

/// An option of `tee` that leaves the lines alone.
pub open spec fn is_tee_option(value: Seq<char>) -> bool {
    one_of(
        value,
        seq!["-a", "-i", "-p", "--append", "--ignore-interrupts", "--output-error"],
    ) || opens_with(value, "--output-error="@)
}

/// The options of `tee` from `from` on are understood.
pub open spec fn tee_options(arguments: Seq<Seq<char>>, from: int) -> bool
    decreases arguments.len() - from,
{
    if from < 0 || from >= arguments.len() || arguments[from] == "--"@ {
        true
    } else if is_tee_option(arguments[from]) {
        tee_options(arguments, from + 1)
    } else {
        !opens_with(arguments[from], "-"@) || arguments[from] == "-"@
    }
}

/// What is wrong with the arguments of `tee`.
pub open spec fn tee_fault(arguments: Seq<Seq<char>>) -> Option<Seq<char>> {
    if tee_options(arguments, 0) {
        None
    } else {
        Some("tee transform uses an unsupported option"@)
    }
}

/// The text without a sign in front.
pub open spec fn unsigned(value: Seq<char>) -> Seq<char> {
    if opens_with(value, "+"@) || opens_with(value, "-"@) {
        value.skip(1)
    } else {
        value
    }
}

/// A literal number of lines.
pub open spec fn is_line_count(value: Seq<char>) -> bool {
    unsigned(value).len() > 0 && all_digits(unsigned(value))
}

/// An option that gives the number of lines by itself.
pub open spec fn gives_line_count(argument: Seq<char>) -> bool {
    opens_with(argument, "-"@) && argument.len() > 1 && all_digits(argument.skip(1))
}

/// What is wrong with the arguments of `head` or `tail` from `from` on.
pub open spec fn selector_fault(
    program: Seq<char>,
    arguments: Seq<Seq<char>>,
    from: int,
    operands: bool,
) -> Option<Seq<char>>
    decreases arguments.len() - from,
{
    let argument = arguments[from];
    let not_a_count = Some(program + " line count is not a literal integer"@);
    if from < 0 || from >= arguments.len() {
        None
    } else if operands {
        if argument != "-"@ {
            Some(program + " transform must read only standard input"@)
        } else {
            selector_fault(program, arguments, from + 1, true)
        }
    } else if argument == "--"@ || argument == "-"@ {
        selector_fault(program, arguments, from + 1, true)
    } else if one_of(argument, seq!["-q", "--quiet", "--silent"]) {
        selector_fault(program, arguments, from + 1, false)
    } else if one_of(argument, seq!["-n", "--lines"]) {
        if from + 1 >= arguments.len() {
            Some(program + " line option is missing its value"@)
        } else if !is_line_count(arguments[from + 1]) {
            not_a_count
        } else {
            selector_fault(program, arguments, from + 2, false)
        }
    } else if opens_with(argument, "--lines="@) {
        if !is_line_count(argument.skip(8)) {
            not_a_count
        } else {
            selector_fault(program, arguments, from + 1, false)
        }
    } else if opens_with(argument, "-n"@) && argument.len() > 2 {
        if !is_line_count(argument.skip(2)) {
            not_a_count
        } else {
            selector_fault(program, arguments, from + 1, false)
        }
    } else if gives_line_count(argument) {
        selector_fault(program, arguments, from + 1, false)
    } else {
        Some(program + " transform uses an unsupported option or operand"@)
    }
}

/// `value` is one of the options, alone or with `=` and a value.
pub open spec fn is_option(value: Seq<char>, options: Seq<&str>) -> bool {
    exists|i: int|
        0 <= i < options.len() && (value == (#[trigger] options[i])@ || opens_with(
            value,
            options[i]@ + "="@,
        ))
}

/// `value` is one of the short options with its value attached.
pub open spec fn has_attached(value: Seq<char>, options: Seq<&str>) -> bool {
    exists|i: int|
        0 <= i < options.len() && opens_with(value, (#[trigger] options[i])@) && value.len()
            > options[i]@.len()
}

/// Every character after the first is one of the flags.
pub open spec fn bundles_flags(value: Seq<char>, flags: Seq<char>) -> bool {
    value.len() > 1 && forall|i: int| 1 <= i < value.len() ==> flags.contains(#[trigger] value[i])
}

/// An option of `sort` that takes a value.
pub open spec fn sort_takes_value(value: Seq<char>) -> bool {
    is_option(
        value,
        seq![
            "-k",
            "-t",
            "-S",
            "-T",
            "--key",
            "--field-separator",
            "--buffer-size",
            "--temporary-directory",
            "--batch-size",
            "--random-source",
        ],
    ) || has_attached(value, seq!["-k", "-t", "-S", "-T"])
}

/// A flag of `sort` that keeps whole lines.
pub open spec fn is_sort_flag(value: Seq<char>) -> bool {
    if opens_with(value, "--"@) {
        one_of(
            value,
            seq![
                "--stable",
                "--unique",
                "--reverse",
                "--numeric-sort",
                "--general-numeric-sort",
                "--human-numeric-sort",
                "--version-sort",
                "--month-sort",
                "--random-sort",
                "--ignore-case",
                "--ignore-leading-blanks",
                "--dictionary-order",
                "--ignore-nonprinting",
            ],
        )
    } else {
        bundles_flags(value, "bdfghiMnRrsuV"@)
    }
}

/// What is wrong with the arguments of `sort` from `from` on.
pub open spec fn sort_fault(arguments: Seq<Seq<char>>, from: int, operands: bool) -> Option<
    Seq<char>,
>
    decreases arguments.len() - from,
{
    let argument = arguments[from];
    if from < 0 || from >= arguments.len() {
        None
    } else if operands || argument == "-"@ || !opens_with(argument, "-"@) {
        if argument != "-"@ {
            Some("sort transform must read only standard input"@)
        } else {
            sort_fault(arguments, from + 1, true)
        }
    } else if argument == "--"@ {
        sort_fault(arguments, from + 1, true)
    } else if sort_takes_value(argument) {
        if argument.contains('=') || has_attached(argument, seq!["-k", "-t", "-S", "-T"]) {
            sort_fault(arguments, from + 1, false)
        } else if from + 2 > arguments.len() {
            Some("sort option is missing its value"@)
        } else {
            sort_fault(arguments, from + 2, false)
        }
    } else if is_sort_flag(argument) {
        sort_fault(arguments, from + 1, false)
    } else {
        Some("sort transform uses an unsupported option"@)
    }
}

/// An option of `uniq` that takes a value.
pub open spec fn uniq_takes_value(value: Seq<char>) -> bool {
    is_option(
        value,
        seq!["-f", "-s", "-w", "--skip-fields", "--skip-chars", "--check-chars"],
    ) || has_attached(value, seq!["-f", "-s", "-w"])
}

/// A flag of `uniq` that keeps whole lines.
pub open spec fn is_uniq_flag(value: Seq<char>) -> bool {
    if opens_with(value, "--"@) {
        one_of(value, seq!["--all-repeated", "--repeated", "--unique", "--ignore-case"])
    } else {
        bundles_flags(value, "Ddui"@)
    }
}

/// What is wrong with the arguments of `uniq` from `from` on, after `operands` or an operand.
pub open spec fn uniq_fault(
    arguments: Seq<Seq<char>>,
    from: int,
    operands: bool,
    operand: bool,
) -> Option<Seq<char>>
    decreases arguments.len() - from,
{
    let argument = arguments[from];
    if from < 0 || from >= arguments.len() {
        None
    } else if operands || argument == "-"@ || !opens_with(argument, "-"@) {
        if argument != "-"@ || operand {
            Some("uniq transform must read only standard input"@)
        } else {
            uniq_fault(arguments, from + 1, true, true)
        }
    } else if argument == "--"@ {
        uniq_fault(arguments, from + 1, true, operand)
    } else if uniq_takes_value(argument) {
        if argument.contains('=') || has_attached(argument, seq!["-f", "-s", "-w"]) {
            uniq_fault(arguments, from + 1, false, operand)
        } else if from + 2 > arguments.len() {
            Some("uniq option is missing its value"@)
        } else {
            uniq_fault(arguments, from + 2, false, operand)
        }
    } else if is_uniq_flag(argument) {
        uniq_fault(arguments, from + 1, false, operand)
    } else {
        Some("uniq transform uses an unsupported option"@)
    }
}

/// What is wrong with a program that is to keep the lines of a pipeline.
pub open spec fn transform_fault(words: Seq<Seq<char>>) -> Option<Seq<char>> {
    let arguments = words.skip(1);
    if words.len() == 0 {
        Some("pipeline transform has no program"@)
    } else if words[0] == "cat"@ {
        stdin_fault(arguments)
    } else if words[0] == "tee"@ {
        tee_fault(arguments)
    } else if one_of(words[0], seq!["head", "tail"]) {
        selector_fault(words[0], arguments, 0, false)
    } else if words[0] == "sort"@ {
        sort_fault(arguments, 0, false)
    } else if words[0] == "uniq"@ {
        uniq_fault(arguments, 0, false, false)
    } else {
        Some("pipeline transform program is unsupported"@)
    }
}

fn validate_stdin_only(arguments: &[String]) -> (result: Result<(), String>)
    ensures
        reports(result, stdin_fault(texts(arguments@))),
{
    let ghost all = texts(arguments@);
    let mut operands = false;
    let mut i: usize = 0;
    while i < arguments.len()
        invariant
            i <= arguments.len(),
            all == texts(arguments@),
            reads_stdin(all, 0, false) == reads_stdin(all, i as int, operands),
        decreases arguments.len() - i,
    {
        assert(all[i as int] == arguments@[i as int]@);
        let argument = arguments[i].as_str();
        if same_text(argument, "--") && !operands {
            operands = true;
        } else if !same_text(argument, "-") {
            return Err("pipeline transform must read only standard input".to_owned());
        }
        i += 1;
    }
    Ok(())
}

fn validate_tee(arguments: &[String]) -> (result: Result<(), String>)
    ensures
        reports(result, tee_fault(texts(arguments@))),
{
    let ghost all = texts(arguments@);
    let mut i: usize = 0;
    while i < arguments.len()
        invariant
            i <= arguments.len(),
            all == texts(arguments@),
            tee_options(all, 0) == tee_options(all, i as int),
        decreases arguments.len() - i,
    {
        assert(all[i as int] == arguments@[i as int]@);
        let argument = arguments[i].as_str();
        if same_text(argument, "--") {
            return Ok(());
        }
        if !is_one_of(
            argument,
            &["-a", "-i", "-p", "--append", "--ignore-interrupts", "--output-error"],
        ) && !starts_with(argument, "--output-error=") {
            if !starts_with(argument, "-") || same_text(argument, "-") {
                return Ok(());
            }
            return Err("tee transform uses an unsupported option".to_owned());
        }
        i += 1;
    }
    Ok(())
}

fn only_digits(characters: &Vec<char>, from: usize) -> (found: bool)
    requires
        from <= characters@.len(),
    ensures
        found == all_digits(characters@.skip(from as int)),
{
    let ghost rest = characters@.skip(from as int);
    let mut i: usize = from;
    while i < characters.len()
        invariant
            from <= i <= characters.len(),
            rest == characters@.skip(from as int),
            forall|j: int| 0 <= j < i - from ==> is_digit(#[trigger] rest[j]),
        decreases characters.len() - i,
    {
        assert(rest[i - from] == characters@[i as int]);
        if !('0' <= characters[i] && characters[i] <= '9') {
            return false;
        }
        i += 1;
    }
    true
}

/// Whether the characters from `from` on are a literal number of lines.
fn counts_lines(characters: &Vec<char>, from: usize) -> (found: bool)
    requires
        from <= characters@.len(),
    ensures
        found == is_line_count(characters@.skip(from as int)),
{
    let ghost value = characters@.skip(from as int);
    proof {
        reveal_strlit("+");
        reveal_strlit("-");
        if value.len() > 0 {
            assert(value[0] == characters@[from as int]);
            assert(value.subrange(0, 1) =~= seq![value[0]]);
            assert("+"@ =~= seq!['+']);
            assert("-"@ =~= seq!['-']);
            assert(opens_with(value, "+"@) <==> value[0] == '+') by {
                if value.subrange(0, 1) == "+"@ {
                    assert(value.subrange(0, 1)[0] == '+');
                }
            }
            assert(opens_with(value, "-"@) <==> value[0] == '-') by {
                if value.subrange(0, 1) == "-"@ {
                    assert(value.subrange(0, 1)[0] == '-');
                }
            }
            assert(value.skip(1) =~= characters@.skip(from + 1));
        }
    }
    if from < characters.len() && (characters[from] == '+' || characters[from] == '-') {
        return from + 1 < characters.len() && only_digits(characters, from + 1);
    }
    from < characters.len() && only_digits(characters, from)
}

/// Whether an argument gives the number of lines by itself.
fn is_count_option(argument: &str) -> (found: bool)
    ensures
        found == gives_line_count(argument@),
{
    if !starts_with(argument, "-") {
        return false;
    }
    let characters = chars(argument);
    characters.len() > 1 && only_digits(&characters, 1)
}

fn validate_line_selector(program: &str, arguments: &[String]) -> (result: Result<(), String>)
    ensures
        reports(result, selector_fault(program@, texts(arguments@), 0, false)),
{
    let ghost all = texts(arguments@);
    let mut operands = false;
    let mut index: usize = 0;
    proof {
        reveal_strlit("--lines=");
        reveal_strlit("-n");
    }
    while index < arguments.len()
        invariant
            index <= arguments.len(),
            all == texts(arguments@),
            "--lines="@.len() == 8,
            "-n"@.len() == 2,
            selector_fault(program@, all, 0, false) == selector_fault(
                program@,
                all,
                index as int,
                operands,
            ),
        decreases arguments.len() - index,
    {
        assert(all[index as int] == arguments@[index as int]@);
        let argument = arguments[index].as_str();
        if operands {
            if !same_text(argument, "-") {
                return Err(join2(program, " transform must read only standard input"));
            }
            index += 1;
        } else if same_text(argument, "--") || same_text(argument, "-") {
            operands = true;
            index += 1;
        } else if is_one_of(argument, &["-q", "--quiet", "--silent"]) {
            index += 1;
        } else if is_one_of(argument, &["-n", "--lines"]) {
            if arguments.len() - index <= 1 {
                return Err(join2(program, " line option is missing its value"));
            }
            assert(all[index + 1] == arguments@[index + 1]@);
            let count = chars(arguments[index + 1].as_str());
            assert(count@.skip(0) =~= count@);
            if !counts_lines(&count, 0) {
                return Err(join2(program, " line count is not a literal integer"));
            }
            index += 2;
        } else if starts_with(argument, "--lines=") {
            let characters = chars(argument);
            if !counts_lines(&characters, 8) {
                return Err(join2(program, " line count is not a literal integer"));
            }
            index += 1;
        } else if starts_with(argument, "-n") && chars(argument).len() > 2 {
            let characters = chars(argument);
            if !counts_lines(&characters, 2) {
                return Err(join2(program, " line count is not a literal integer"));
            }
            index += 1;
        } else if is_count_option(argument) {
            index += 1;
        } else {
            return Err(join2(program, " transform uses an unsupported option or operand"));
        }
    }
    Ok(())
}

fn matches_option(value: &str, options: &[&str]) -> (found: bool)
    ensures
        found == is_option(value@, options@),
{
    let mut i: usize = 0;
    while i < options.len()
        invariant
            i <= options.len(),
            forall|j: int|
                0 <= j < i ==> value@ != (#[trigger] options@[j])@ && !opens_with(
                    value@,
                    options@[j]@ + "="@,
                ),
        decreases options.len() - i,
    {
        if same_text(value, options[i]) || starts_with(value, join2(options[i], "=").as_str()) {
            return true;
        }
        i += 1;
    }
    false
}

fn attaches_value(value: &str, options: &[&str]) -> (found: bool)
    ensures
        found == has_attached(value@, options@),
{
    let length: usize = chars(value).len();
    let mut i: usize = 0;
    while i < options.len()
        invariant
            i <= options.len(),
            length == value@.len(),
            forall|j: int|
                0 <= j < i ==> !(opens_with(value@, (#[trigger] options@[j])@) && value@.len()
                    > options@[j]@.len()),
        decreases options.len() - i,
    {
        if starts_with(value, options[i]) && length > chars(options[i]).len() {
            return true;
        }
        i += 1;
    }
    false
}

fn has_equals_sign(value: &str) -> (found: bool)
    ensures
        found == value@.contains('='),
{
    let characters = chars(value);
    let mut i: usize = 0;
    while i < characters.len()
        invariant
            i <= characters.len(),
            characters@ == value@,
            forall|j: int| 0 <= j < i ==> #[trigger] value@[j] != '=',
        decreases characters.len() - i,
    {
        if characters[i] == '=' {
            assert(value@[i as int] == '=');
            return true;
        }
        i += 1;
    }
    false
}

fn is_flag_bundle(value: &str, flags: &str) -> (found: bool)
    ensures
        found == bundles_flags(value@, flags@),
{
    let characters = chars(value);
    let allowed = chars(flags);
    if characters.len() < 2 {
        return false;
    }
    let mut i: usize = 1;
    while i < characters.len()
        invariant
            1 <= i <= characters.len(),
            characters@ == value@,
            allowed@ == flags@,
            forall|j: int| 1 <= j < i ==> flags@.contains(#[trigger] value@[j]),
        decreases characters.len() - i,
    {
        let mut k: usize = 0;
        while k < allowed.len() && allowed[k] != characters[i]
            invariant
                k <= allowed.len(),
                i < characters.len(),
                forall|j: int| 0 <= j < k ==> #[trigger] allowed@[j] != characters@[i as int],
            decreases allowed.len() - k,
        {
            k += 1;
        }
        if k == allowed.len() {
            assert(!flags@.contains(value@[i as int]));
            return false;
        }
        assert(flags@[k as int] == value@[i as int]);
        i += 1;
    }
    true
}

fn sort_option_takes_value(value: &str) -> (found: bool)
    ensures
        found == sort_takes_value(value@),
{
    matches_option(
        value,
        &[
            "-k",
            "-t",
            "-S",
            "-T",
            "--key",
            "--field-separator",
            "--buffer-size",
            "--temporary-directory",
            "--batch-size",
            "--random-source",
        ],
    ) || attaches_value(value, &["-k", "-t", "-S", "-T"])
}

fn is_safe_sort_flag(value: &str) -> (found: bool)
    ensures
        found == is_sort_flag(value@),
{
    if starts_with(value, "--") {
        return is_one_of(
            value,
            &[
                "--stable",
                "--unique",
                "--reverse",
                "--numeric-sort",
                "--general-numeric-sort",
                "--human-numeric-sort",
                "--version-sort",
                "--month-sort",
                "--random-sort",
                "--ignore-case",
                "--ignore-leading-blanks",
                "--dictionary-order",
                "--ignore-nonprinting",
            ],
        );
    }
    is_flag_bundle(value, "bdfghiMnRrsuV")
}

fn validate_sort(arguments: &[String]) -> (result: Result<(), String>)
    ensures
        reports(result, sort_fault(texts(arguments@), 0, false)),
{
    let ghost all = texts(arguments@);
    let mut operands = false;
    let mut index: usize = 0;
    while index < arguments.len()
        invariant
            index <= arguments.len(),
            all == texts(arguments@),
            sort_fault(all, 0, false) == sort_fault(all, index as int, operands),
        decreases arguments.len() - index,
    {
        assert(all[index as int] == arguments@[index as int]@);
        let argument = arguments[index].as_str();
        if operands || same_text(argument, "-") || !starts_with(argument, "-") {
            if !same_text(argument, "-") {
                return Err("sort transform must read only standard input".to_owned());
            }
            operands = true;
            index += 1;
        } else if same_text(argument, "--") {
            operands = true;
            index += 1;
        } else if sort_option_takes_value(argument) {
            if has_equals_sign(argument) || attaches_value(argument, &["-k", "-t", "-S", "-T"]) {
                index += 1;
            } else if arguments.len() - index < 2 {
                return Err("sort option is missing its value".to_owned());
            } else {
                index += 2;
            }
        } else if is_safe_sort_flag(argument) {
            index += 1;
        } else {
            return Err("sort transform uses an unsupported option".to_owned());
        }
    }
    Ok(())
}

fn uniq_option_takes_value(value: &str) -> (found: bool)
    ensures
        found == uniq_takes_value(value@),
{
    matches_option(
        value,
        &["-f", "-s", "-w", "--skip-fields", "--skip-chars", "--check-chars"],
    ) || attaches_value(value, &["-f", "-s", "-w"])
}

fn is_safe_uniq_flag(value: &str) -> (found: bool)
    ensures
        found == is_uniq_flag(value@),
{
    if starts_with(value, "--") {
        return is_one_of(
            value,
            &["--all-repeated", "--repeated", "--unique", "--ignore-case"],
        );
    }
    is_flag_bundle(value, "Ddui")
}

fn validate_uniq(arguments: &[String]) -> (result: Result<(), String>)
    ensures
        reports(result, uniq_fault(texts(arguments@), 0, false, false)),
{
    let ghost all = texts(arguments@);
    let mut operands = false;
    let mut operand = false;
    let mut index: usize = 0;
    while index < arguments.len()
        invariant
            index <= arguments.len(),
            all == texts(arguments@),
            uniq_fault(all, 0, false, false) == uniq_fault(all, index as int, operands, operand),
        decreases arguments.len() - index,
    {
        assert(all[index as int] == arguments@[index as int]@);
        let argument = arguments[index].as_str();
        if operands || same_text(argument, "-") || !starts_with(argument, "-") {
            if !same_text(argument, "-") || operand {
                return Err("uniq transform must read only standard input".to_owned());
            }
            operands = true;
            operand = true;
            index += 1;
        } else if same_text(argument, "--") {
            operands = true;
            index += 1;
        } else if uniq_option_takes_value(argument) {
            if has_equals_sign(argument) || attaches_value(argument, &["-f", "-s", "-w"]) {
                index += 1;
            } else if arguments.len() - index < 2 {
                return Err("uniq option is missing its value".to_owned());
            } else {
                index += 2;
            }
        } else if is_safe_uniq_flag(argument) {
            index += 1;
        } else {
            return Err("uniq transform uses an unsupported option".to_owned());
        }
    }
    Ok(())
}

/// Check that a program keeps the lines of a pipeline and reads nothing else.
///
/// # Errors
///
/// Returns an error when the program or one of its arguments is not understood, or when it reads
/// anything but standard input.
pub fn validate_line_preserving(words: &[String]) -> (result: Result<(), String>)
    ensures
        reports(result, transform_fault(texts(words@))),
{
    if words.len() == 0 {
        return Err("pipeline transform has no program".to_owned());
    }
    let ghost all = texts(words@);
    assert(all[0] == words@[0]@);
    let program = words[0].as_str();
    let arguments: &[String] = &words[1..words.len()];
    assert(texts(arguments@) =~= all.skip(1));
    if same_text(program, "cat") {
        validate_stdin_only(arguments)
    } else if same_text(program, "tee") {
        validate_tee(arguments)
    } else if is_one_of(program, &["head", "tail"]) {
        validate_line_selector(program, arguments)
    } else if same_text(program, "sort") {
        validate_sort(arguments)
    } else if same_text(program, "uniq") {
        validate_uniq(arguments)
    } else {
        Err("pipeline transform program is unsupported".to_owned())
    }
}

} // verus!
