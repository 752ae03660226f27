//! What the lines of each kind of output are taken for.
use vstd::prelude::*;

use super::classify::trimmed_body;
use super::evidence::EvidenceClass;
use super::wording::{
    ends, is_plain, is_empty_line, is_indented, lemma_empty, lemma_plain, mentions,
    mentions_exactly_inside, mentions_inside, opens, opens_exactly, same_letter, starts,
    starts_folded, word_at,
};
use super::{build_output, diff, list, log, search, status};
use crate::bytes::{
    has_any_infix, has_any_infix_folded, has_any_prefix, has_any_prefix_folded, has_infix,
    has_infix_folded, has_prefix, has_prefix_folded, has_suffix, lit, lower, without_line_ending,
};

verus! {

/// A line that opens with one word does not open with another that differs in a letter.
proof fn lemma_apart(line: Seq<u8>, word: &str, other: &str, at: int)
    requires
        is_plain(word),
        is_plain(other),
        word@[0] != ' ' && word@[0] != '\t',
        other@[0] != ' ' && other@[0] != '\t',
        0 <= at < word@.len(),
        at < other@.len(),
        lower(word@[at] as u8) != lower(other@[at] as u8),
        opens(line, word),
    ensures
        !opens(line, other),
        !opens_exactly(line, other),
{
    lemma_plain(line, word);
    lemma_plain(line, other);
    let value = trimmed_body(line);
    if opens(line, other) || opens_exactly(line, other) {
        assert(lower(value[at]) == lower(word@[at] as u8));
        assert(lower(value[at]) == lower(other@[at] as u8));
    }
}

proof fn lemma_test_outcome(line: Seq<u8>)
    ensures
        crate::reducers::test::states_outcome(trimmed_body(line)) <==> ({
            ||| opens(line, "test result:")
            ||| opens(line, "failures:")
            ||| opens(line, "Test Files  ")
            ||| opens(line, "Tests  ")
            ||| mentions_inside(line, " passed in ")
            ||| mentions_inside(line, " failed, ") && mentions_inside(line, " passed")
        }),
{
    reveal_strlit("test result:");
    lemma_plain(line, "test result:");
    reveal_strlit("failures:");
    lemma_plain(line, "failures:");
    reveal_strlit("Test Files  ");
    lemma_plain(line, "Test Files  ");
    reveal_strlit("Tests  ");
    lemma_plain(line, "Tests  ");
    reveal_strlit(" passed in ");
    lemma_plain(line, " passed in ");
    reveal_strlit(" failed, ");
    lemma_plain(line, " failed, ");
    reveal_strlit(" passed");
    lemma_plain(line, " passed");
    {
        let list = seq!["test result:", "failures:", "Test Files  ", "Tests  "];
        if has_any_prefix_folded(trimmed_body(line), list) {
            let i = choose|i: int|
                0 <= i < list.len() && has_prefix_folded(trimmed_body(line), lit(#[trigger] list[i]));
            assert(i == 0 ==> list[i] == "test result:");
            assert(i == 1 ==> list[i] == "failures:");
            assert(i == 2 ==> list[i] == "Test Files  ");
            assert(i == 3 ==> list[i] == "Tests  ");
        }
        assert(list[0] == "test result:");
        assert(list[1] == "failures:");
        assert(list[2] == "Test Files  ");
        assert(list[3] == "Tests  ");
    }
}

proof fn lemma_test_problem(line: Seq<u8>)
    ensures
        (opens(line, "FAIL ") || opens(line, "FAILED ") || opens(line, "--- FAIL:") || opens(line, "not ok ") || opens(line, "AssertionError") || opens(line, "ZodError") || opens(line, "Caused by:") || opens(line, "Traceback") || opens(line, "error:") || opens(line, "error[") || opens(line, "npm error") || opens(line, "thread '") || opens(line, "E ")) <==> has_any_prefix_folded(trimmed_body(line), seq!["FAIL ", "FAILED ", "--- FAIL:", "not ok ", "AssertionError", "ZodError", "Caused by:", "Traceback", "error:", "error[", "npm error", "thread '", "E "]),
{
    reveal_strlit("FAIL ");
    lemma_plain(line, "FAIL ");
    reveal_strlit("FAILED ");
    lemma_plain(line, "FAILED ");
    reveal_strlit("--- FAIL:");
    lemma_plain(line, "--- FAIL:");
    reveal_strlit("not ok ");
    lemma_plain(line, "not ok ");
    reveal_strlit("AssertionError");
    lemma_plain(line, "AssertionError");
    reveal_strlit("ZodError");
    lemma_plain(line, "ZodError");
    reveal_strlit("Caused by:");
    lemma_plain(line, "Caused by:");
    reveal_strlit("Traceback");
    lemma_plain(line, "Traceback");
    reveal_strlit("error:");
    lemma_plain(line, "error:");
    reveal_strlit("error[");
    lemma_plain(line, "error[");
    reveal_strlit("npm error");
    lemma_plain(line, "npm error");
    reveal_strlit("thread '");
    lemma_plain(line, "thread '");
    reveal_strlit("E ");
    lemma_plain(line, "E ");
    {
        let list = seq!["FAIL ", "FAILED ", "--- FAIL:", "not ok ", "AssertionError", "ZodError", "Caused by:", "Traceback", "error:", "error[", "npm error", "thread '", "E "];
        if has_any_prefix_folded(trimmed_body(line), list) {
            let i = choose|i: int|
                0 <= i < list.len() && has_prefix_folded(trimmed_body(line), lit(#[trigger] list[i]));
            assert(i == 0 ==> list[i] == "FAIL ");
            assert(i == 1 ==> list[i] == "FAILED ");
            assert(i == 2 ==> list[i] == "--- FAIL:");
            assert(i == 3 ==> list[i] == "not ok ");
            assert(i == 4 ==> list[i] == "AssertionError");
            assert(i == 5 ==> list[i] == "ZodError");
            assert(i == 6 ==> list[i] == "Caused by:");
            assert(i == 7 ==> list[i] == "Traceback");
            assert(i == 8 ==> list[i] == "error:");
            assert(i == 9 ==> list[i] == "error[");
            assert(i == 10 ==> list[i] == "npm error");
            assert(i == 11 ==> list[i] == "thread '");
            assert(i == 12 ==> list[i] == "E ");
        }
        assert(list[0] == "FAIL ");
        assert(list[1] == "FAILED ");
        assert(list[2] == "--- FAIL:");
        assert(list[3] == "not ok ");
        assert(list[4] == "AssertionError");
        assert(list[5] == "ZodError");
        assert(list[6] == "Caused by:");
        assert(list[7] == "Traceback");
        assert(list[8] == "error:");
        assert(list[9] == "error[");
        assert(list[10] == "npm error");
        assert(list[11] == "thread '");
        assert(list[12] == "E ");
    }
}

proof fn lemma_test_routine(line: Seq<u8>)
    ensures
        crate::reducers::test::is_routine_line(trimmed_body(line)) ==> ({
            ||| opens_exactly(line, "test ") && ends(line, " ok")
            ||| opens_exactly(line, "Compiling ")
            ||| opens_exactly(line, "Checking ")
            ||| opens_exactly(line, "Fresh ")
            ||| mentions_inside(line, " passed in ")
        }),
        (opens_exactly(line, "Compiling ") || opens_exactly(line, "Checking ") || opens_exactly(line, "Fresh ")) ==> crate::reducers::test::is_routine_line(trimmed_body(line)),
        opens_exactly(line, "test ") && has_suffix(trimmed_body(line), lit(" ok")) ==> crate::reducers::test::is_routine_line(trimmed_body(line)),
{
    reveal_strlit("   Compiling ");
    lemma_plain(line, "   Compiling ");
    reveal_strlit("Compiling ");
    lemma_plain(line, "Compiling ");
    reveal_strlit("Checking ");
    lemma_plain(line, "Checking ");
    reveal_strlit("Fresh ");
    lemma_plain(line, "Fresh ");
    reveal_strlit("test ");
    lemma_plain(line, "test ");
    reveal_strlit(" ... ok");
    lemma_plain(line, " ... ok");
    reveal_strlit(" ok");
    lemma_plain(line, " ok");
    reveal_strlit(" passed in ");
    lemma_plain(line, " passed in ");
    {
        let list = seq!["   Compiling ", "Compiling ", "Checking ", "Fresh "];
        if has_any_prefix(trimmed_body(line), list) {
            let i = choose|i: int|
                0 <= i < list.len() && has_prefix(trimmed_body(line), lit(#[trigger] list[i]));
            assert(i == 0 ==> list[i] == "   Compiling ");
            assert(i == 1 ==> list[i] == "Compiling ");
            assert(i == 2 ==> list[i] == "Checking ");
            assert(i == 3 ==> list[i] == "Fresh ");
        }
        assert(list[0] == "   Compiling ");
        assert(list[1] == "Compiling ");
        assert(list[2] == "Checking ");
        assert(list[3] == "Fresh ");
    }
    if has_suffix(trimmed_body(line), lit(" ... ok")) {
        lemma_shorter_suffix(trimmed_body(line));
    }
}

proof fn lemma_test_structure(line: Seq<u8>)
    ensures
        (opens_exactly(line, "running ") || opens_exactly(line, "collected ") || opens_exactly(line, "test session starts")) <==> has_any_prefix(trimmed_body(line), seq!["running ", "collected ", "test session starts"]),
{
    reveal_strlit("running ");
    lemma_plain(line, "running ");
    reveal_strlit("collected ");
    lemma_plain(line, "collected ");
    reveal_strlit("test session starts");
    lemma_plain(line, "test session starts");
    {
        let list = seq!["running ", "collected ", "test session starts"];
        if has_any_prefix(trimmed_body(line), list) {
            let i = choose|i: int|
                0 <= i < list.len() && has_prefix(trimmed_body(line), lit(#[trigger] list[i]));
            assert(i == 0 ==> list[i] == "running ");
            assert(i == 1 ==> list[i] == "collected ");
            assert(i == 2 ==> list[i] == "test session starts");
        }
        assert(list[0] == "running ");
        assert(list[1] == "collected ");
        assert(list[2] == "test session starts");
    }
}

/// The end of a longer ending.
proof fn lemma_shorter_suffix(value: Seq<u8>)
    requires
        has_suffix(value, lit(" ... ok")),
    ensures
        has_suffix(value, lit(" ok")),
{
    reveal_strlit(" ... ok");
    reveal_strlit(" ok");
    lemma_plain(value, " ... ok");
    lemma_plain(value, " ok");
    let long = lit(" ... ok");
    let short = lit(" ok");
    vstd::utf8::is_ascii_chars_encode_utf8(" ... ok"@);
    vstd::utf8::is_ascii_chars_encode_utf8(" ok"@);
    let at = value.len() - long.len();
    assert(value.subrange(at, at + long.len())[4] == long[4]);
    assert(value.subrange(at, at + long.len())[5] == long[5]);
    assert(value.subrange(at, at + long.len())[6] == long[6]);
    assert(long[4] == short[0] && long[5] == short[1] && long[6] == short[2]);
    assert(value.subrange(value.len() - 3, value.len() as int) =~= short);
}

proof fn lemma_test_words_differ(line: Seq<u8>)
    requires
        ({
            ||| opens(line, "FAIL ")
            ||| opens(line, "FAILED ")
            ||| opens(line, "--- FAIL:")
            ||| opens(line, "not ok ")
            ||| opens(line, "AssertionError")
            ||| opens(line, "ZodError")
            ||| opens(line, "Caused by:")
            ||| opens(line, "Traceback")
            ||| opens(line, "error:")
            ||| opens(line, "error[")
            ||| opens(line, "npm error")
            ||| opens(line, "thread '")
            ||| opens(line, "E ")
        }),
    ensures
        !opens(line, "test result:") && !opens_exactly(line, "test result:"),
        !opens(line, "failures:") && !opens_exactly(line, "failures:"),
        !opens(line, "Test Files  ") && !opens_exactly(line, "Test Files  "),
        !opens(line, "Tests  ") && !opens_exactly(line, "Tests  "),
        !opens(line, "Compiling ") && !opens_exactly(line, "Compiling "),
        !opens(line, "Checking ") && !opens_exactly(line, "Checking "),
        !opens(line, "Fresh ") && !opens_exactly(line, "Fresh "),
        !opens(line, "test ") && !opens_exactly(line, "test "),
{
    if opens(line, "FAIL ") {
        assert(!opens(line, "test result:") && !opens_exactly(line, "test result:")) by {
            reveal_strlit("FAIL ");
            reveal_strlit("test result:");
            lemma_apart(line, "FAIL ", "test result:", 0);
        }
        assert(!opens(line, "failures:") && !opens_exactly(line, "failures:")) by {
            reveal_strlit("FAIL ");
            reveal_strlit("failures:");
            lemma_apart(line, "FAIL ", "failures:", 4);
        }
        assert(!opens(line, "Test Files  ") && !opens_exactly(line, "Test Files  ")) by {
            reveal_strlit("FAIL ");
            reveal_strlit("Test Files  ");
            lemma_apart(line, "FAIL ", "Test Files  ", 0);
        }
        assert(!opens(line, "Tests  ") && !opens_exactly(line, "Tests  ")) by {
            reveal_strlit("FAIL ");
            reveal_strlit("Tests  ");
            lemma_apart(line, "FAIL ", "Tests  ", 0);
        }
        assert(!opens(line, "Compiling ") && !opens_exactly(line, "Compiling ")) by {
            reveal_strlit("FAIL ");
            reveal_strlit("Compiling ");
            lemma_apart(line, "FAIL ", "Compiling ", 0);
        }
        assert(!opens(line, "Checking ") && !opens_exactly(line, "Checking ")) by {
            reveal_strlit("FAIL ");
            reveal_strlit("Checking ");
            lemma_apart(line, "FAIL ", "Checking ", 0);
        }
        assert(!opens(line, "Fresh ") && !opens_exactly(line, "Fresh ")) by {
            reveal_strlit("FAIL ");
            reveal_strlit("Fresh ");
            lemma_apart(line, "FAIL ", "Fresh ", 1);
        }
        assert(!opens(line, "test ") && !opens_exactly(line, "test ")) by {
            reveal_strlit("FAIL ");
            reveal_strlit("test ");
            lemma_apart(line, "FAIL ", "test ", 0);
        }
    }
    if opens(line, "FAILED ") {
        assert(!opens(line, "test result:") && !opens_exactly(line, "test result:")) by {
            reveal_strlit("FAILED ");
            reveal_strlit("test result:");
            lemma_apart(line, "FAILED ", "test result:", 0);
        }
        assert(!opens(line, "failures:") && !opens_exactly(line, "failures:")) by {
            reveal_strlit("FAILED ");
            reveal_strlit("failures:");
            lemma_apart(line, "FAILED ", "failures:", 4);
        }
        assert(!opens(line, "Test Files  ") && !opens_exactly(line, "Test Files  ")) by {
            reveal_strlit("FAILED ");
            reveal_strlit("Test Files  ");
            lemma_apart(line, "FAILED ", "Test Files  ", 0);
        }
        assert(!opens(line, "Tests  ") && !opens_exactly(line, "Tests  ")) by {
            reveal_strlit("FAILED ");
            reveal_strlit("Tests  ");
            lemma_apart(line, "FAILED ", "Tests  ", 0);
        }
        assert(!opens(line, "Compiling ") && !opens_exactly(line, "Compiling ")) by {
            reveal_strlit("FAILED ");
            reveal_strlit("Compiling ");
            lemma_apart(line, "FAILED ", "Compiling ", 0);
        }
        assert(!opens(line, "Checking ") && !opens_exactly(line, "Checking ")) by {
            reveal_strlit("FAILED ");
            reveal_strlit("Checking ");
            lemma_apart(line, "FAILED ", "Checking ", 0);
        }
        assert(!opens(line, "Fresh ") && !opens_exactly(line, "Fresh ")) by {
            reveal_strlit("FAILED ");
            reveal_strlit("Fresh ");
            lemma_apart(line, "FAILED ", "Fresh ", 1);
        }
        assert(!opens(line, "test ") && !opens_exactly(line, "test ")) by {
            reveal_strlit("FAILED ");
            reveal_strlit("test ");
            lemma_apart(line, "FAILED ", "test ", 0);
        }
    }
    if opens(line, "--- FAIL:") {
        assert(!opens(line, "test result:") && !opens_exactly(line, "test result:")) by {
            reveal_strlit("--- FAIL:");
            reveal_strlit("test result:");
            lemma_apart(line, "--- FAIL:", "test result:", 0);
        }
        assert(!opens(line, "failures:") && !opens_exactly(line, "failures:")) by {
            reveal_strlit("--- FAIL:");
            reveal_strlit("failures:");
            lemma_apart(line, "--- FAIL:", "failures:", 0);
        }
        assert(!opens(line, "Test Files  ") && !opens_exactly(line, "Test Files  ")) by {
            reveal_strlit("--- FAIL:");
            reveal_strlit("Test Files  ");
            lemma_apart(line, "--- FAIL:", "Test Files  ", 0);
        }
        assert(!opens(line, "Tests  ") && !opens_exactly(line, "Tests  ")) by {
            reveal_strlit("--- FAIL:");
            reveal_strlit("Tests  ");
            lemma_apart(line, "--- FAIL:", "Tests  ", 0);
        }
        assert(!opens(line, "Compiling ") && !opens_exactly(line, "Compiling ")) by {
            reveal_strlit("--- FAIL:");
            reveal_strlit("Compiling ");
            lemma_apart(line, "--- FAIL:", "Compiling ", 0);
        }
        assert(!opens(line, "Checking ") && !opens_exactly(line, "Checking ")) by {
            reveal_strlit("--- FAIL:");
            reveal_strlit("Checking ");
            lemma_apart(line, "--- FAIL:", "Checking ", 0);
        }
        assert(!opens(line, "Fresh ") && !opens_exactly(line, "Fresh ")) by {
            reveal_strlit("--- FAIL:");
            reveal_strlit("Fresh ");
            lemma_apart(line, "--- FAIL:", "Fresh ", 0);
        }
        assert(!opens(line, "test ") && !opens_exactly(line, "test ")) by {
            reveal_strlit("--- FAIL:");
            reveal_strlit("test ");
            lemma_apart(line, "--- FAIL:", "test ", 0);
        }
    }
    if opens(line, "not ok ") {
        assert(!opens(line, "test result:") && !opens_exactly(line, "test result:")) by {
            reveal_strlit("not ok ");
            reveal_strlit("test result:");
            lemma_apart(line, "not ok ", "test result:", 0);
        }
        assert(!opens(line, "failures:") && !opens_exactly(line, "failures:")) by {
            reveal_strlit("not ok ");
            reveal_strlit("failures:");
            lemma_apart(line, "not ok ", "failures:", 0);
        }
        assert(!opens(line, "Test Files  ") && !opens_exactly(line, "Test Files  ")) by {
            reveal_strlit("not ok ");
            reveal_strlit("Test Files  ");
            lemma_apart(line, "not ok ", "Test Files  ", 0);
        }
        assert(!opens(line, "Tests  ") && !opens_exactly(line, "Tests  ")) by {
            reveal_strlit("not ok ");
            reveal_strlit("Tests  ");
            lemma_apart(line, "not ok ", "Tests  ", 0);
        }
        assert(!opens(line, "Compiling ") && !opens_exactly(line, "Compiling ")) by {
            reveal_strlit("not ok ");
            reveal_strlit("Compiling ");
            lemma_apart(line, "not ok ", "Compiling ", 0);
        }
        assert(!opens(line, "Checking ") && !opens_exactly(line, "Checking ")) by {
            reveal_strlit("not ok ");
            reveal_strlit("Checking ");
            lemma_apart(line, "not ok ", "Checking ", 0);
        }
        assert(!opens(line, "Fresh ") && !opens_exactly(line, "Fresh ")) by {
            reveal_strlit("not ok ");
            reveal_strlit("Fresh ");
            lemma_apart(line, "not ok ", "Fresh ", 0);
        }
        assert(!opens(line, "test ") && !opens_exactly(line, "test ")) by {
            reveal_strlit("not ok ");
            reveal_strlit("test ");
            lemma_apart(line, "not ok ", "test ", 0);
        }
    }
    if opens(line, "AssertionError") {
        assert(!opens(line, "test result:") && !opens_exactly(line, "test result:")) by {
            reveal_strlit("AssertionError");
            reveal_strlit("test result:");
            lemma_apart(line, "AssertionError", "test result:", 0);
        }
        assert(!opens(line, "failures:") && !opens_exactly(line, "failures:")) by {
            reveal_strlit("AssertionError");
            reveal_strlit("failures:");
            lemma_apart(line, "AssertionError", "failures:", 0);
        }
        assert(!opens(line, "Test Files  ") && !opens_exactly(line, "Test Files  ")) by {
            reveal_strlit("AssertionError");
            reveal_strlit("Test Files  ");
            lemma_apart(line, "AssertionError", "Test Files  ", 0);
        }
        assert(!opens(line, "Tests  ") && !opens_exactly(line, "Tests  ")) by {
            reveal_strlit("AssertionError");
            reveal_strlit("Tests  ");
            lemma_apart(line, "AssertionError", "Tests  ", 0);
        }
        assert(!opens(line, "Compiling ") && !opens_exactly(line, "Compiling ")) by {
            reveal_strlit("AssertionError");
            reveal_strlit("Compiling ");
            lemma_apart(line, "AssertionError", "Compiling ", 0);
        }
        assert(!opens(line, "Checking ") && !opens_exactly(line, "Checking ")) by {
            reveal_strlit("AssertionError");
            reveal_strlit("Checking ");
            lemma_apart(line, "AssertionError", "Checking ", 0);
        }
        assert(!opens(line, "Fresh ") && !opens_exactly(line, "Fresh ")) by {
            reveal_strlit("AssertionError");
            reveal_strlit("Fresh ");
            lemma_apart(line, "AssertionError", "Fresh ", 0);
        }
        assert(!opens(line, "test ") && !opens_exactly(line, "test ")) by {
            reveal_strlit("AssertionError");
            reveal_strlit("test ");
            lemma_apart(line, "AssertionError", "test ", 0);
        }
    }
    if opens(line, "ZodError") {
        assert(!opens(line, "test result:") && !opens_exactly(line, "test result:")) by {
            reveal_strlit("ZodError");
            reveal_strlit("test result:");
            lemma_apart(line, "ZodError", "test result:", 0);
        }
        assert(!opens(line, "failures:") && !opens_exactly(line, "failures:")) by {
            reveal_strlit("ZodError");
            reveal_strlit("failures:");
            lemma_apart(line, "ZodError", "failures:", 0);
        }
        assert(!opens(line, "Test Files  ") && !opens_exactly(line, "Test Files  ")) by {
            reveal_strlit("ZodError");
            reveal_strlit("Test Files  ");
            lemma_apart(line, "ZodError", "Test Files  ", 0);
        }
        assert(!opens(line, "Tests  ") && !opens_exactly(line, "Tests  ")) by {
            reveal_strlit("ZodError");
            reveal_strlit("Tests  ");
            lemma_apart(line, "ZodError", "Tests  ", 0);
        }
        assert(!opens(line, "Compiling ") && !opens_exactly(line, "Compiling ")) by {
            reveal_strlit("ZodError");
            reveal_strlit("Compiling ");
            lemma_apart(line, "ZodError", "Compiling ", 0);
        }
        assert(!opens(line, "Checking ") && !opens_exactly(line, "Checking ")) by {
            reveal_strlit("ZodError");
            reveal_strlit("Checking ");
            lemma_apart(line, "ZodError", "Checking ", 0);
        }
        assert(!opens(line, "Fresh ") && !opens_exactly(line, "Fresh ")) by {
            reveal_strlit("ZodError");
            reveal_strlit("Fresh ");
            lemma_apart(line, "ZodError", "Fresh ", 0);
        }
        assert(!opens(line, "test ") && !opens_exactly(line, "test ")) by {
            reveal_strlit("ZodError");
            reveal_strlit("test ");
            lemma_apart(line, "ZodError", "test ", 0);
        }
    }
    if opens(line, "Caused by:") {
        assert(!opens(line, "test result:") && !opens_exactly(line, "test result:")) by {
            reveal_strlit("Caused by:");
            reveal_strlit("test result:");
            lemma_apart(line, "Caused by:", "test result:", 0);
        }
        assert(!opens(line, "failures:") && !opens_exactly(line, "failures:")) by {
            reveal_strlit("Caused by:");
            reveal_strlit("failures:");
            lemma_apart(line, "Caused by:", "failures:", 0);
        }
        assert(!opens(line, "Test Files  ") && !opens_exactly(line, "Test Files  ")) by {
            reveal_strlit("Caused by:");
            reveal_strlit("Test Files  ");
            lemma_apart(line, "Caused by:", "Test Files  ", 0);
        }
        assert(!opens(line, "Tests  ") && !opens_exactly(line, "Tests  ")) by {
            reveal_strlit("Caused by:");
            reveal_strlit("Tests  ");
            lemma_apart(line, "Caused by:", "Tests  ", 0);
        }
        assert(!opens(line, "Compiling ") && !opens_exactly(line, "Compiling ")) by {
            reveal_strlit("Caused by:");
            reveal_strlit("Compiling ");
            lemma_apart(line, "Caused by:", "Compiling ", 1);
        }
        assert(!opens(line, "Checking ") && !opens_exactly(line, "Checking ")) by {
            reveal_strlit("Caused by:");
            reveal_strlit("Checking ");
            lemma_apart(line, "Caused by:", "Checking ", 1);
        }
        assert(!opens(line, "Fresh ") && !opens_exactly(line, "Fresh ")) by {
            reveal_strlit("Caused by:");
            reveal_strlit("Fresh ");
            lemma_apart(line, "Caused by:", "Fresh ", 0);
        }
        assert(!opens(line, "test ") && !opens_exactly(line, "test ")) by {
            reveal_strlit("Caused by:");
            reveal_strlit("test ");
            lemma_apart(line, "Caused by:", "test ", 0);
        }
    }
    if opens(line, "Traceback") {
        assert(!opens(line, "test result:") && !opens_exactly(line, "test result:")) by {
            reveal_strlit("Traceback");
            reveal_strlit("test result:");
            lemma_apart(line, "Traceback", "test result:", 1);
        }
        assert(!opens(line, "failures:") && !opens_exactly(line, "failures:")) by {
            reveal_strlit("Traceback");
            reveal_strlit("failures:");
            lemma_apart(line, "Traceback", "failures:", 0);
        }
        assert(!opens(line, "Test Files  ") && !opens_exactly(line, "Test Files  ")) by {
            reveal_strlit("Traceback");
            reveal_strlit("Test Files  ");
            lemma_apart(line, "Traceback", "Test Files  ", 1);
        }
        assert(!opens(line, "Tests  ") && !opens_exactly(line, "Tests  ")) by {
            reveal_strlit("Traceback");
            reveal_strlit("Tests  ");
            lemma_apart(line, "Traceback", "Tests  ", 1);
        }
        assert(!opens(line, "Compiling ") && !opens_exactly(line, "Compiling ")) by {
            reveal_strlit("Traceback");
            reveal_strlit("Compiling ");
            lemma_apart(line, "Traceback", "Compiling ", 0);
        }
        assert(!opens(line, "Checking ") && !opens_exactly(line, "Checking ")) by {
            reveal_strlit("Traceback");
            reveal_strlit("Checking ");
            lemma_apart(line, "Traceback", "Checking ", 0);
        }
        assert(!opens(line, "Fresh ") && !opens_exactly(line, "Fresh ")) by {
            reveal_strlit("Traceback");
            reveal_strlit("Fresh ");
            lemma_apart(line, "Traceback", "Fresh ", 0);
        }
        assert(!opens(line, "test ") && !opens_exactly(line, "test ")) by {
            reveal_strlit("Traceback");
            reveal_strlit("test ");
            lemma_apart(line, "Traceback", "test ", 1);
        }
    }
    if opens(line, "error:") {
        assert(!opens(line, "test result:") && !opens_exactly(line, "test result:")) by {
            reveal_strlit("error:");
            reveal_strlit("test result:");
            lemma_apart(line, "error:", "test result:", 0);
        }
        assert(!opens(line, "failures:") && !opens_exactly(line, "failures:")) by {
            reveal_strlit("error:");
            reveal_strlit("failures:");
            lemma_apart(line, "error:", "failures:", 0);
        }
        assert(!opens(line, "Test Files  ") && !opens_exactly(line, "Test Files  ")) by {
            reveal_strlit("error:");
            reveal_strlit("Test Files  ");
            lemma_apart(line, "error:", "Test Files  ", 0);
        }
        assert(!opens(line, "Tests  ") && !opens_exactly(line, "Tests  ")) by {
            reveal_strlit("error:");
            reveal_strlit("Tests  ");
            lemma_apart(line, "error:", "Tests  ", 0);
        }
        assert(!opens(line, "Compiling ") && !opens_exactly(line, "Compiling ")) by {
            reveal_strlit("error:");
            reveal_strlit("Compiling ");
            lemma_apart(line, "error:", "Compiling ", 0);
        }
        assert(!opens(line, "Checking ") && !opens_exactly(line, "Checking ")) by {
            reveal_strlit("error:");
            reveal_strlit("Checking ");
            lemma_apart(line, "error:", "Checking ", 0);
        }
        assert(!opens(line, "Fresh ") && !opens_exactly(line, "Fresh ")) by {
            reveal_strlit("error:");
            reveal_strlit("Fresh ");
            lemma_apart(line, "error:", "Fresh ", 0);
        }
        assert(!opens(line, "test ") && !opens_exactly(line, "test ")) by {
            reveal_strlit("error:");
            reveal_strlit("test ");
            lemma_apart(line, "error:", "test ", 0);
        }
    }
    if opens(line, "error[") {
        assert(!opens(line, "test result:") && !opens_exactly(line, "test result:")) by {
            reveal_strlit("error[");
            reveal_strlit("test result:");
            lemma_apart(line, "error[", "test result:", 0);
        }
        assert(!opens(line, "failures:") && !opens_exactly(line, "failures:")) by {
            reveal_strlit("error[");
            reveal_strlit("failures:");
            lemma_apart(line, "error[", "failures:", 0);
        }
        assert(!opens(line, "Test Files  ") && !opens_exactly(line, "Test Files  ")) by {
            reveal_strlit("error[");
            reveal_strlit("Test Files  ");
            lemma_apart(line, "error[", "Test Files  ", 0);
        }
        assert(!opens(line, "Tests  ") && !opens_exactly(line, "Tests  ")) by {
            reveal_strlit("error[");
            reveal_strlit("Tests  ");
            lemma_apart(line, "error[", "Tests  ", 0);
        }
        assert(!opens(line, "Compiling ") && !opens_exactly(line, "Compiling ")) by {
            reveal_strlit("error[");
            reveal_strlit("Compiling ");
            lemma_apart(line, "error[", "Compiling ", 0);
        }
        assert(!opens(line, "Checking ") && !opens_exactly(line, "Checking ")) by {
            reveal_strlit("error[");
            reveal_strlit("Checking ");
            lemma_apart(line, "error[", "Checking ", 0);
        }
        assert(!opens(line, "Fresh ") && !opens_exactly(line, "Fresh ")) by {
            reveal_strlit("error[");
            reveal_strlit("Fresh ");
            lemma_apart(line, "error[", "Fresh ", 0);
        }
        assert(!opens(line, "test ") && !opens_exactly(line, "test ")) by {
            reveal_strlit("error[");
            reveal_strlit("test ");
            lemma_apart(line, "error[", "test ", 0);
        }
    }
    if opens(line, "npm error") {
        assert(!opens(line, "test result:") && !opens_exactly(line, "test result:")) by {
            reveal_strlit("npm error");
            reveal_strlit("test result:");
            lemma_apart(line, "npm error", "test result:", 0);
        }
        assert(!opens(line, "failures:") && !opens_exactly(line, "failures:")) by {
            reveal_strlit("npm error");
            reveal_strlit("failures:");
            lemma_apart(line, "npm error", "failures:", 0);
        }
        assert(!opens(line, "Test Files  ") && !opens_exactly(line, "Test Files  ")) by {
            reveal_strlit("npm error");
            reveal_strlit("Test Files  ");
            lemma_apart(line, "npm error", "Test Files  ", 0);
        }
        assert(!opens(line, "Tests  ") && !opens_exactly(line, "Tests  ")) by {
            reveal_strlit("npm error");
            reveal_strlit("Tests  ");
            lemma_apart(line, "npm error", "Tests  ", 0);
        }
        assert(!opens(line, "Compiling ") && !opens_exactly(line, "Compiling ")) by {
            reveal_strlit("npm error");
            reveal_strlit("Compiling ");
            lemma_apart(line, "npm error", "Compiling ", 0);
        }
        assert(!opens(line, "Checking ") && !opens_exactly(line, "Checking ")) by {
            reveal_strlit("npm error");
            reveal_strlit("Checking ");
            lemma_apart(line, "npm error", "Checking ", 0);
        }
        assert(!opens(line, "Fresh ") && !opens_exactly(line, "Fresh ")) by {
            reveal_strlit("npm error");
            reveal_strlit("Fresh ");
            lemma_apart(line, "npm error", "Fresh ", 0);
        }
        assert(!opens(line, "test ") && !opens_exactly(line, "test ")) by {
            reveal_strlit("npm error");
            reveal_strlit("test ");
            lemma_apart(line, "npm error", "test ", 0);
        }
    }
    if opens(line, "thread '") {
        assert(!opens(line, "test result:") && !opens_exactly(line, "test result:")) by {
            reveal_strlit("thread '");
            reveal_strlit("test result:");
            lemma_apart(line, "thread '", "test result:", 1);
        }
        assert(!opens(line, "failures:") && !opens_exactly(line, "failures:")) by {
            reveal_strlit("thread '");
            reveal_strlit("failures:");
            lemma_apart(line, "thread '", "failures:", 0);
        }
        assert(!opens(line, "Test Files  ") && !opens_exactly(line, "Test Files  ")) by {
            reveal_strlit("thread '");
            reveal_strlit("Test Files  ");
            lemma_apart(line, "thread '", "Test Files  ", 1);
        }
        assert(!opens(line, "Tests  ") && !opens_exactly(line, "Tests  ")) by {
            reveal_strlit("thread '");
            reveal_strlit("Tests  ");
            lemma_apart(line, "thread '", "Tests  ", 1);
        }
        assert(!opens(line, "Compiling ") && !opens_exactly(line, "Compiling ")) by {
            reveal_strlit("thread '");
            reveal_strlit("Compiling ");
            lemma_apart(line, "thread '", "Compiling ", 0);
        }
        assert(!opens(line, "Checking ") && !opens_exactly(line, "Checking ")) by {
            reveal_strlit("thread '");
            reveal_strlit("Checking ");
            lemma_apart(line, "thread '", "Checking ", 0);
        }
        assert(!opens(line, "Fresh ") && !opens_exactly(line, "Fresh ")) by {
            reveal_strlit("thread '");
            reveal_strlit("Fresh ");
            lemma_apart(line, "thread '", "Fresh ", 0);
        }
        assert(!opens(line, "test ") && !opens_exactly(line, "test ")) by {
            reveal_strlit("thread '");
            reveal_strlit("test ");
            lemma_apart(line, "thread '", "test ", 1);
        }
    }
    if opens(line, "E ") {
        assert(!opens(line, "test result:") && !opens_exactly(line, "test result:")) by {
            reveal_strlit("E ");
            reveal_strlit("test result:");
            lemma_apart(line, "E ", "test result:", 0);
        }
        assert(!opens(line, "failures:") && !opens_exactly(line, "failures:")) by {
            reveal_strlit("E ");
            reveal_strlit("failures:");
            lemma_apart(line, "E ", "failures:", 0);
        }
        assert(!opens(line, "Test Files  ") && !opens_exactly(line, "Test Files  ")) by {
            reveal_strlit("E ");
            reveal_strlit("Test Files  ");
            lemma_apart(line, "E ", "Test Files  ", 0);
        }
        assert(!opens(line, "Tests  ") && !opens_exactly(line, "Tests  ")) by {
            reveal_strlit("E ");
            reveal_strlit("Tests  ");
            lemma_apart(line, "E ", "Tests  ", 0);
        }
        assert(!opens(line, "Compiling ") && !opens_exactly(line, "Compiling ")) by {
            reveal_strlit("E ");
            reveal_strlit("Compiling ");
            lemma_apart(line, "E ", "Compiling ", 0);
        }
        assert(!opens(line, "Checking ") && !opens_exactly(line, "Checking ")) by {
            reveal_strlit("E ");
            reveal_strlit("Checking ");
            lemma_apart(line, "E ", "Checking ", 0);
        }
        assert(!opens(line, "Fresh ") && !opens_exactly(line, "Fresh ")) by {
            reveal_strlit("E ");
            reveal_strlit("Fresh ");
            lemma_apart(line, "E ", "Fresh ", 0);
        }
        assert(!opens(line, "test ") && !opens_exactly(line, "test ")) by {
            reveal_strlit("E ");
            reveal_strlit("test ");
            lemma_apart(line, "E ", "test ", 0);
        }
    }
}

/// In the output of tests, a line that opens with the name of a failure is a diagnostic, unless it
/// tells how many tests passed: then it is the outcome. It is never taken for progress.
pub proof fn lemma_failed_tests_are_diagnostics(line: Seq<u8>)
    requires
        ({
            ||| opens(line, "FAIL ")
            ||| opens(line, "FAILED ")
            ||| opens(line, "--- FAIL:")
            ||| opens(line, "not ok ")
            ||| opens(line, "AssertionError")
            ||| opens(line, "ZodError")
            ||| opens(line, "Caused by:")
            ||| opens(line, "Traceback")
            ||| opens(line, "error:")
            ||| opens(line, "error[")
            ||| opens(line, "npm error")
            ||| opens(line, "thread '")
            ||| opens(line, "E ")
        }),
    ensures
        crate::reducers::test::class_of(line) == EvidenceClass::Diagnostic || (crate::reducers::test::class_of(line) == EvidenceClass::Outcome && mentions_inside(line, " passed")),
        !mentions_inside(line, " passed") ==> crate::reducers::test::class_of(line) == EvidenceClass::Diagnostic,
{
    lemma_test_words_differ(line);
    lemma_test_outcome(line);
    lemma_test_problem(line);
    lemma_test_routine(line);
    lemma_test_structure(line);
    lemma_empty(line);
    lemma_test_trouble(line);
    if mentions_inside(line, " passed in ") {
        lemma_passed(line);
    }
}

proof fn lemma_passed(line: Seq<u8>)
    requires
        mentions_inside(line, " passed in "),
    ensures
        mentions_inside(line, " passed"),
{
    reveal_strlit(" passed in ");
    reveal_strlit(" passed");
    vstd::utf8::is_ascii_chars_encode_utf8(" passed in "@);
    vstd::utf8::is_ascii_chars_encode_utf8(" passed"@);
    let at = choose|at: int|
        #[trigger] word_at(line, lit(" passed in "), at) && !is_indented(line, at);
    assert(word_at(line, lit(" passed"), at)) by {
        assert forall|i: int| 0 <= i < lit(" passed").len() implies same_letter(
            #[trigger] line[at + i],
            lit(" passed")[i],
        ) by {
            assert(same_letter(line[at + i], lit(" passed in ")[i]));
            assert(" passed in "@[i] == " passed"@[i]);
        }
    }
}

/// A line that says how a test run ended is its outcome, and no other line is.
pub proof fn lemma_test_outcomes(line: Seq<u8>)
    ensures
        crate::reducers::test::class_of(line) == EvidenceClass::Outcome <==> ({
            ||| opens(line, "test result:")
            ||| opens(line, "failures:")
            ||| opens(line, "Test Files  ")
            ||| opens(line, "Tests  ")
            ||| mentions_inside(line, " passed in ")
            ||| mentions_inside(line, " failed, ") && mentions_inside(line, " passed")
        }),
{
    lemma_test_outcome(line);
    lemma_test_problem(line);
    lemma_test_routine(line);
    lemma_test_structure(line);
    lemma_empty(line);
}

/// Of test output, only progress is noise: empty lines, tests that passed and steps of the build. The
/// steps of the build are noise unless they state the outcome.
pub proof fn lemma_only_test_progress_is_dropped(line: Seq<u8>)
    ensures
        crate::reducers::test::class_of(line) == EvidenceClass::Noise ==> ({
            ||| is_empty_line(line)
            ||| opens_exactly(line, "test ") && ends(line, " ok")
            ||| opens_exactly(line, "Compiling ")
            ||| opens_exactly(line, "Checking ")
            ||| opens_exactly(line, "Fresh ")
        }),
        (opens_exactly(line, "Compiling ") || opens_exactly(line, "Checking ") || opens_exactly(line, "Fresh ")) && crate::reducers::test::class_of(line) != EvidenceClass::Outcome ==> crate::reducers::test::class_of(line) == EvidenceClass::Noise,
        opens_exactly(line, "test ") && has_suffix(trimmed_body(line), lit(" ok")) && crate::reducers::test::class_of(line) != EvidenceClass::Outcome ==> crate::reducers::test::class_of(line) == EvidenceClass::Noise,
{
    lemma_test_outcome(line);
    lemma_test_problem(line);
    lemma_test_routine(line);
    lemma_test_structure(line);
    lemma_empty(line);
}

proof fn lemma_test_trouble(line: Seq<u8>)
    ensures
        crate::reducers::test::reports_problem(trimmed_body(line)) <==> ({
            ||| opens(line, "FAIL ")
            ||| opens(line, "FAILED ")
            ||| opens(line, "--- FAIL:")
            ||| opens(line, "not ok ")
            ||| opens(line, "AssertionError")
            ||| opens(line, "ZodError")
            ||| opens(line, "Caused by:")
            ||| opens(line, "Traceback")
            ||| opens(line, "error:")
            ||| opens(line, "error[")
            ||| opens(line, "npm error")
            ||| opens(line, "thread '")
            ||| opens(line, "E ")
            ||| mentions(line, "testCodeFailure")
            ||| mentions(line, "stopping after ") && mentions_inside(line, " failure")
            ||| has_prefix(trimmed_body(line), lit("❯")) && mentions_inside(line, " failed")
        }),
{
    reveal_strlit("testCodeFailure");
    lemma_plain(line, "testCodeFailure");
    reveal_strlit("stopping after ");
    lemma_plain(line, "stopping after ");
    reveal_strlit(" failure");
    lemma_plain(line, " failure");
    reveal_strlit(" failed");
    lemma_plain(line, " failed");
    lemma_test_problem(line);
}

/// Of test output, a diagnostic names a failure or an error, and the frame of a run is its structure.
/// Every other line that is not empty is an example.
pub proof fn lemma_other_test_lines(line: Seq<u8>)
    ensures
        crate::reducers::test::class_of(line) == EvidenceClass::Diagnostic ==> ({
            ||| opens(line, "FAIL ")
            ||| opens(line, "FAILED ")
            ||| opens(line, "--- FAIL:")
            ||| opens(line, "not ok ")
            ||| opens(line, "AssertionError")
            ||| opens(line, "ZodError")
            ||| opens(line, "Caused by:")
            ||| opens(line, "Traceback")
            ||| opens(line, "error:")
            ||| opens(line, "error[")
            ||| opens(line, "npm error")
            ||| opens(line, "thread '")
            ||| opens(line, "E ")
            ||| mentions(line, "testCodeFailure")
            ||| mentions(line, "stopping after ") && mentions_inside(line, " failure")
            ||| has_prefix(trimmed_body(line), lit("❯")) && mentions_inside(line, " failed")
        }),
        mentions(line, "testCodeFailure") ==> crate::reducers::test::class_of(line) != EvidenceClass::Example && crate::reducers::test::class_of(line) != EvidenceClass::Structure,
        mentions(line, "stopping after ") && mentions_inside(line, " failure") ==> crate::reducers::test::class_of(line) != EvidenceClass::Example && crate::reducers::test::class_of(line) != EvidenceClass::Structure,
        crate::reducers::test::class_of(line) == EvidenceClass::Structure ==> (opens_exactly(line, "running ") || opens_exactly(line, "collected ") || opens_exactly(line, "test session starts")),
        (opens_exactly(line, "running ") || opens_exactly(line, "collected ") || opens_exactly(line, "test session starts")) && crate::reducers::test::class_of(line) == EvidenceClass::Example ==> false,
{
    lemma_test_trouble(line);
    lemma_test_structure(line);
}

proof fn lemma_build_outcome_mention(line: Seq<u8>)
    ensures
        has_any_infix_folded(trimmed_body(line), seq!["build successful", "build failed", "command failed with exit code", " passed in "]) <==> ({
            ||| mentions(line, "build successful")
            ||| mentions(line, "build failed")
            ||| mentions(line, "command failed with exit code")
            ||| mentions_inside(line, " passed in ")
        }),
{
    reveal_strlit("build successful");
    lemma_plain(line, "build successful");
    reveal_strlit("build failed");
    lemma_plain(line, "build failed");
    reveal_strlit("command failed with exit code");
    lemma_plain(line, "command failed with exit code");
    reveal_strlit(" passed in ");
    lemma_plain(line, " passed in ");
    {
        let list = seq!["build successful", "build failed", "command failed with exit code", " passed in "];
        if has_any_infix_folded(trimmed_body(line), list) {
            let i = choose|i: int|
                0 <= i < list.len() && has_infix_folded(trimmed_body(line), lit(#[trigger] list[i]));
            assert(i == 0 ==> list[i] == "build successful");
            assert(i == 1 ==> list[i] == "build failed");
            assert(i == 2 ==> list[i] == "command failed with exit code");
            assert(i == 3 ==> list[i] == " passed in ");
        }
        assert(list[0] == "build successful");
        assert(list[1] == "build failed");
        assert(list[2] == "command failed with exit code");
        assert(list[3] == " passed in ");
    }
}

proof fn lemma_build_outcome_opening(line: Seq<u8>)
    ensures
        has_any_prefix_folded(trimmed_body(line), seq!["Finished ", "Test Files  ", "Tests  ", "Build complete"]) <==> ({
            ||| opens(line, "Finished ")
            ||| opens(line, "Test Files  ")
            ||| opens(line, "Tests  ")
            ||| opens(line, "Build complete")
        }),
{
    reveal_strlit("Finished ");
    lemma_plain(line, "Finished ");
    reveal_strlit("Test Files  ");
    lemma_plain(line, "Test Files  ");
    reveal_strlit("Tests  ");
    lemma_plain(line, "Tests  ");
    reveal_strlit("Build complete");
    lemma_plain(line, "Build complete");
    {
        let list = seq!["Finished ", "Test Files  ", "Tests  ", "Build complete"];
        if has_any_prefix_folded(trimmed_body(line), list) {
            let i = choose|i: int|
                0 <= i < list.len() && has_prefix_folded(trimmed_body(line), lit(#[trigger] list[i]));
            assert(i == 0 ==> list[i] == "Finished ");
            assert(i == 1 ==> list[i] == "Test Files  ");
            assert(i == 2 ==> list[i] == "Tests  ");
            assert(i == 3 ==> list[i] == "Build complete");
        }
        assert(list[0] == "Finished ");
        assert(list[1] == "Test Files  ");
        assert(list[2] == "Tests  ");
        assert(list[3] == "Build complete");
    }
}

proof fn lemma_build_problem_opening(line: Seq<u8>)
    ensures
        has_any_prefix_folded(trimmed_body(line), seq!["error:", "error[", "warning:", "warning[", "fatal:", "panic:", "exception:", "traceback", "failed ", "failure:", "npm error", "npm err!"]) <==> ({
            ||| opens(line, "error:")
            ||| opens(line, "error[")
            ||| opens(line, "warning:")
            ||| opens(line, "warning[")
            ||| opens(line, "fatal:")
            ||| opens(line, "panic:")
            ||| opens(line, "exception:")
            ||| opens(line, "traceback")
            ||| opens(line, "failed ")
            ||| opens(line, "failure:")
            ||| opens(line, "npm error")
            ||| opens(line, "npm err!")
        }),
{
    reveal_strlit("error:");
    lemma_plain(line, "error:");
    reveal_strlit("error[");
    lemma_plain(line, "error[");
    reveal_strlit("warning:");
    lemma_plain(line, "warning:");
    reveal_strlit("warning[");
    lemma_plain(line, "warning[");
    reveal_strlit("fatal:");
    lemma_plain(line, "fatal:");
    reveal_strlit("panic:");
    lemma_plain(line, "panic:");
    reveal_strlit("exception:");
    lemma_plain(line, "exception:");
    reveal_strlit("traceback");
    lemma_plain(line, "traceback");
    reveal_strlit("failed ");
    lemma_plain(line, "failed ");
    reveal_strlit("failure:");
    lemma_plain(line, "failure:");
    reveal_strlit("npm error");
    lemma_plain(line, "npm error");
    reveal_strlit("npm err!");
    lemma_plain(line, "npm err!");
    {
        let list = seq!["error:", "error[", "warning:", "warning[", "fatal:", "panic:", "exception:", "traceback", "failed ", "failure:", "npm error", "npm err!"];
        if has_any_prefix_folded(trimmed_body(line), list) {
            let i = choose|i: int|
                0 <= i < list.len() && has_prefix_folded(trimmed_body(line), lit(#[trigger] list[i]));
            assert(i == 0 ==> list[i] == "error:");
            assert(i == 1 ==> list[i] == "error[");
            assert(i == 2 ==> list[i] == "warning:");
            assert(i == 3 ==> list[i] == "warning[");
            assert(i == 4 ==> list[i] == "fatal:");
            assert(i == 5 ==> list[i] == "panic:");
            assert(i == 6 ==> list[i] == "exception:");
            assert(i == 7 ==> list[i] == "traceback");
            assert(i == 8 ==> list[i] == "failed ");
            assert(i == 9 ==> list[i] == "failure:");
            assert(i == 10 ==> list[i] == "npm error");
            assert(i == 11 ==> list[i] == "npm err!");
        }
        assert(list[0] == "error:");
        assert(list[1] == "error[");
        assert(list[2] == "warning:");
        assert(list[3] == "warning[");
        assert(list[4] == "fatal:");
        assert(list[5] == "panic:");
        assert(list[6] == "exception:");
        assert(list[7] == "traceback");
        assert(list[8] == "failed ");
        assert(list[9] == "failure:");
        assert(list[10] == "npm error");
        assert(list[11] == "npm err!");
    }
}

proof fn lemma_build_problem_mark(line: Seq<u8>)
    ensures
        has_any_prefix(trimmed_body(line), seq!["✖", "×"]) <==> ({
            ||| has_prefix(trimmed_body(line), lit("✖"))
            ||| has_prefix(trimmed_body(line), lit("×"))
        }),
{
    {
        let list = seq!["✖", "×"];
        if has_any_prefix(trimmed_body(line), list) {
            let i = choose|i: int|
                0 <= i < list.len() && has_prefix(trimmed_body(line), lit(#[trigger] list[i]));
            assert(i == 0 ==> list[i] == "✖");
            assert(i == 1 ==> list[i] == "×");
        }
        assert(list[0] == "✖");
        assert(list[1] == "×");
    }
}

proof fn lemma_build_problem_mention(line: Seq<u8>)
    ensures
        has_any_infix_folded(trimmed_body(line), seq!["##[error]", "##[warning]", "[error]", "[warning]", ": error ", ": warning ", " - error ts", " - warning ts", " command failed with exit code "]) <==> ({
            ||| mentions(line, "##[error]")
            ||| mentions(line, "##[warning]")
            ||| mentions(line, "[error]")
            ||| mentions(line, "[warning]")
            ||| mentions(line, ": error ")
            ||| mentions(line, ": warning ")
            ||| mentions_inside(line, " - error ts")
            ||| mentions_inside(line, " - warning ts")
            ||| mentions_inside(line, " command failed with exit code ")
        }),
{
    reveal_strlit("##[error]");
    lemma_plain(line, "##[error]");
    reveal_strlit("##[warning]");
    lemma_plain(line, "##[warning]");
    reveal_strlit("[error]");
    lemma_plain(line, "[error]");
    reveal_strlit("[warning]");
    lemma_plain(line, "[warning]");
    reveal_strlit(": error ");
    lemma_plain(line, ": error ");
    reveal_strlit(": warning ");
    lemma_plain(line, ": warning ");
    reveal_strlit(" - error ts");
    lemma_plain(line, " - error ts");
    reveal_strlit(" - warning ts");
    lemma_plain(line, " - warning ts");
    reveal_strlit(" command failed with exit code ");
    lemma_plain(line, " command failed with exit code ");
    {
        let list = seq!["##[error]", "##[warning]", "[error]", "[warning]", ": error ", ": warning ", " - error ts", " - warning ts", " command failed with exit code "];
        if has_any_infix_folded(trimmed_body(line), list) {
            let i = choose|i: int|
                0 <= i < list.len() && has_infix_folded(trimmed_body(line), lit(#[trigger] list[i]));
            assert(i == 0 ==> list[i] == "##[error]");
            assert(i == 1 ==> list[i] == "##[warning]");
            assert(i == 2 ==> list[i] == "[error]");
            assert(i == 3 ==> list[i] == "[warning]");
            assert(i == 4 ==> list[i] == ": error ");
            assert(i == 5 ==> list[i] == ": warning ");
            assert(i == 6 ==> list[i] == " - error ts");
            assert(i == 7 ==> list[i] == " - warning ts");
            assert(i == 8 ==> list[i] == " command failed with exit code ");
        }
        assert(list[0] == "##[error]");
        assert(list[1] == "##[warning]");
        assert(list[2] == "[error]");
        assert(list[3] == "[warning]");
        assert(list[4] == ": error ");
        assert(list[5] == ": warning ");
        assert(list[6] == " - error ts");
        assert(list[7] == " - warning ts");
        assert(list[8] == " command failed with exit code ");
    }
}

proof fn lemma_build_progress(line: Seq<u8>)
    ensures
        has_any_prefix(trimmed_body(line), seq!["Compiling ", "Checking ", "Fresh ", "Downloaded ", "Downloading ", "Building ", "Generating ", "[ ", "[="]) <==> ({
            ||| opens_exactly(line, "Compiling ")
            ||| opens_exactly(line, "Checking ")
            ||| opens_exactly(line, "Fresh ")
            ||| opens_exactly(line, "Downloaded ")
            ||| opens_exactly(line, "Downloading ")
            ||| opens_exactly(line, "Building ")
            ||| opens_exactly(line, "Generating ")
            ||| opens_exactly(line, "[ ")
            ||| opens_exactly(line, "[=")
        }),
{
    reveal_strlit("Compiling ");
    lemma_plain(line, "Compiling ");
    reveal_strlit("Checking ");
    lemma_plain(line, "Checking ");
    reveal_strlit("Fresh ");
    lemma_plain(line, "Fresh ");
    reveal_strlit("Downloaded ");
    lemma_plain(line, "Downloaded ");
    reveal_strlit("Downloading ");
    lemma_plain(line, "Downloading ");
    reveal_strlit("Building ");
    lemma_plain(line, "Building ");
    reveal_strlit("Generating ");
    lemma_plain(line, "Generating ");
    reveal_strlit("[ ");
    lemma_plain(line, "[ ");
    reveal_strlit("[=");
    lemma_plain(line, "[=");
    {
        let list = seq!["Compiling ", "Checking ", "Fresh ", "Downloaded ", "Downloading ", "Building ", "Generating ", "[ ", "[="];
        if has_any_prefix(trimmed_body(line), list) {
            let i = choose|i: int|
                0 <= i < list.len() && has_prefix(trimmed_body(line), lit(#[trigger] list[i]));
            assert(i == 0 ==> list[i] == "Compiling ");
            assert(i == 1 ==> list[i] == "Checking ");
            assert(i == 2 ==> list[i] == "Fresh ");
            assert(i == 3 ==> list[i] == "Downloaded ");
            assert(i == 4 ==> list[i] == "Downloading ");
            assert(i == 5 ==> list[i] == "Building ");
            assert(i == 6 ==> list[i] == "Generating ");
            assert(i == 7 ==> list[i] == "[ ");
            assert(i == 8 ==> list[i] == "[=");
        }
        assert(list[0] == "Compiling ");
        assert(list[1] == "Checking ");
        assert(list[2] == "Fresh ");
        assert(list[3] == "Downloaded ");
        assert(list[4] == "Downloading ");
        assert(list[5] == "Building ");
        assert(list[6] == "Generating ");
        assert(list[7] == "[ ");
        assert(list[8] == "[=");
    }
}

proof fn lemma_build_structure(line: Seq<u8>)
    ensures
        has_any_prefix(trimmed_body(line), seq!["> ", "[build]", "[package]"]) <==> ({
            ||| opens_exactly(line, "> ")
            ||| opens_exactly(line, "[build]")
            ||| opens_exactly(line, "[package]")
        }),
{
    reveal_strlit("> ");
    lemma_plain(line, "> ");
    reveal_strlit("[build]");
    lemma_plain(line, "[build]");
    reveal_strlit("[package]");
    lemma_plain(line, "[package]");
    {
        let list = seq!["> ", "[build]", "[package]"];
        if has_any_prefix(trimmed_body(line), list) {
            let i = choose|i: int|
                0 <= i < list.len() && has_prefix(trimmed_body(line), lit(#[trigger] list[i]));
            assert(i == 0 ==> list[i] == "> ");
            assert(i == 1 ==> list[i] == "[build]");
            assert(i == 2 ==> list[i] == "[package]");
        }
        assert(list[0] == "> ");
        assert(list[1] == "[build]");
        assert(list[2] == "[package]");
    }
}

proof fn lemma_build_artifact(line: Seq<u8>)
    ensures
        has_any_infix(trimmed_body(line), seq!["├─ ", "└─ "]) <==> ({
            ||| has_infix(trimmed_body(line), lit("├─ "))
            ||| has_infix(trimmed_body(line), lit("└─ "))
        }),
{
    {
        let list = seq!["├─ ", "└─ "];
        if has_any_infix(trimmed_body(line), list) {
            let i = choose|i: int|
                0 <= i < list.len() && has_infix(trimmed_body(line), lit(#[trigger] list[i]));
            assert(i == 0 ==> list[i] == "├─ ");
            assert(i == 1 ==> list[i] == "└─ ");
        }
        assert(list[0] == "├─ ");
        assert(list[1] == "└─ ");
    }
}

/// A line that says how a build ended is its outcome, and no other line is.
pub proof fn lemma_build_outcomes(line: Seq<u8>)
    ensures
        build_output::class_of(line) == EvidenceClass::Outcome <==> ({
            ||| mentions(line, "build successful")
            ||| mentions(line, "build failed")
            ||| mentions(line, "command failed with exit code")
            ||| mentions_inside(line, " passed in ")
            ||| opens(line, "Finished ")
            ||| opens(line, "Test Files  ")
            ||| opens(line, "Tests  ")
            ||| opens(line, "Build complete")
            ||| has_prefix(trimmed_body(line), lit("✔ Build complete"))
        }),
{
    lemma_build_outcome_mention(line);
    lemma_build_outcome_opening(line);
}

/// In the output of a build, a line that reports an error or a warning is a diagnostic, unless it is
/// the outcome or lists an artifact. It is never taken for progress, and nothing else is a
/// diagnostic.
pub proof fn lemma_build_problems_are_diagnostics(line: Seq<u8>)
    ensures
        ({
            ||| opens(line, "error:")
            ||| opens(line, "error[")
            ||| opens(line, "warning:")
            ||| opens(line, "warning[")
            ||| opens(line, "fatal:")
            ||| opens(line, "panic:")
            ||| opens(line, "exception:")
            ||| opens(line, "traceback")
            ||| opens(line, "failed ")
            ||| opens(line, "failure:")
            ||| opens(line, "npm error")
            ||| opens(line, "npm err!")
            ||| has_prefix(trimmed_body(line), lit("✖"))
            ||| has_prefix(trimmed_body(line), lit("×"))
            ||| mentions(line, "##[error]")
            ||| mentions(line, "##[warning]")
            ||| mentions(line, "[error]")
            ||| mentions(line, "[warning]")
            ||| mentions(line, ": error ")
            ||| mentions(line, ": warning ")
            ||| mentions_inside(line, " - error ts")
            ||| mentions_inside(line, " - warning ts")
            ||| mentions_inside(line, " command failed with exit code ")
        }) ==> ({
            ||| build_output::class_of(line) == EvidenceClass::Diagnostic
            ||| build_output::class_of(line) == EvidenceClass::Outcome
            ||| build_output::class_of(line) == EvidenceClass::Example && (has_prefix(trimmed_body(line), lit("ℹ")) || has_infix(trimmed_body(line), lit("├─ ")) || has_infix(trimmed_body(line), lit("└─ ")))
        }),
        build_output::class_of(line) == EvidenceClass::Diagnostic ==> ({
            ||| opens(line, "error:")
            ||| opens(line, "error[")
            ||| opens(line, "warning:")
            ||| opens(line, "warning[")
            ||| opens(line, "fatal:")
            ||| opens(line, "panic:")
            ||| opens(line, "exception:")
            ||| opens(line, "traceback")
            ||| opens(line, "failed ")
            ||| opens(line, "failure:")
            ||| opens(line, "npm error")
            ||| opens(line, "npm err!")
            ||| has_prefix(trimmed_body(line), lit("✖"))
            ||| has_prefix(trimmed_body(line), lit("×"))
            ||| mentions(line, "##[error]")
            ||| mentions(line, "##[warning]")
            ||| mentions(line, "[error]")
            ||| mentions(line, "[warning]")
            ||| mentions(line, ": error ")
            ||| mentions(line, ": warning ")
            ||| mentions_inside(line, " - error ts")
            ||| mentions_inside(line, " - warning ts")
            ||| mentions_inside(line, " command failed with exit code ")
        }),
{
    lemma_build_outcome_mention(line);
    lemma_build_outcome_opening(line);
    lemma_build_problem_opening(line);
    lemma_build_problem_mark(line);
    lemma_build_problem_mention(line);
    lemma_build_progress(line);
    lemma_build_structure(line);
    lemma_build_artifact(line);
    lemma_empty(line);
}

/// Of the output of a build, only progress and empty lines are noise, and progress always is, unless
/// the line says more.
pub proof fn lemma_only_build_progress_is_dropped(line: Seq<u8>)
    ensures
        build_output::class_of(line) == EvidenceClass::Noise ==> ({
            ||| is_empty_line(line)
            ||| opens_exactly(line, "Compiling ")
            ||| opens_exactly(line, "Checking ")
            ||| opens_exactly(line, "Fresh ")
            ||| opens_exactly(line, "Downloaded ")
            ||| opens_exactly(line, "Downloading ")
            ||| opens_exactly(line, "Building ")
            ||| opens_exactly(line, "Generating ")
            ||| opens_exactly(line, "[ ")
            ||| opens_exactly(line, "[=")
        }),
        ({
            ||| opens_exactly(line, "Compiling ")
            ||| opens_exactly(line, "Checking ")
            ||| opens_exactly(line, "Fresh ")
            ||| opens_exactly(line, "Downloaded ")
            ||| opens_exactly(line, "Downloading ")
            ||| opens_exactly(line, "Building ")
            ||| opens_exactly(line, "Generating ")
            ||| opens_exactly(line, "[ ")
            ||| opens_exactly(line, "[=")
        }) ==> ({
            ||| build_output::class_of(line) == EvidenceClass::Noise
            ||| build_output::class_of(line) == EvidenceClass::Outcome
            ||| build_output::class_of(line) == EvidenceClass::Diagnostic
            ||| has_prefix(trimmed_body(line), lit("ℹ"))
            ||| has_infix(trimmed_body(line), lit("├─ "))
            ||| has_infix(trimmed_body(line), lit("└─ "))
        }),
        build_output::class_of(line) == EvidenceClass::Structure ==> ({
            ||| opens_exactly(line, "> ")
            ||| opens_exactly(line, "[build]")
            ||| opens_exactly(line, "[package]")
        }),
        ({
            ||| opens_exactly(line, "> ")
            ||| opens_exactly(line, "[build]")
            ||| opens_exactly(line, "[package]")
        }) ==> build_output::class_of(line) != EvidenceClass::Example || (has_prefix(trimmed_body(line), lit("ℹ")) || has_infix(trimmed_body(line), lit("├─ ")) || has_infix(trimmed_body(line), lit("└─ "))),
{
    lemma_build_outcome_mention(line);
    lemma_build_outcome_opening(line);
    lemma_build_problem_opening(line);
    lemma_build_problem_mark(line);
    lemma_build_problem_mention(line);
    lemma_build_progress(line);
    lemma_build_structure(line);
    lemma_build_artifact(line);
    lemma_empty(line);
}

proof fn lemma_diff_structure(line: Seq<u8>)
    ensures
        has_any_prefix(without_line_ending(line), seq!["diff --git ", "index ", "--- ", "+++ ", "@@ ", "Binary files ", "new file mode ", "deleted file mode ", "rename from ", "rename to "]) <==> ({
            ||| starts(line, "diff --git ")
            ||| starts(line, "index ")
            ||| starts(line, "--- ")
            ||| starts(line, "+++ ")
            ||| starts(line, "@@ ")
            ||| starts(line, "Binary files ")
            ||| starts(line, "new file mode ")
            ||| starts(line, "deleted file mode ")
            ||| starts(line, "rename from ")
            ||| starts(line, "rename to ")
        }),
{
    reveal_strlit("diff --git ");
    lemma_plain(line, "diff --git ");
    reveal_strlit("index ");
    lemma_plain(line, "index ");
    reveal_strlit("--- ");
    lemma_plain(line, "--- ");
    reveal_strlit("+++ ");
    lemma_plain(line, "+++ ");
    reveal_strlit("@@ ");
    lemma_plain(line, "@@ ");
    reveal_strlit("Binary files ");
    lemma_plain(line, "Binary files ");
    reveal_strlit("new file mode ");
    lemma_plain(line, "new file mode ");
    reveal_strlit("deleted file mode ");
    lemma_plain(line, "deleted file mode ");
    reveal_strlit("rename from ");
    lemma_plain(line, "rename from ");
    reveal_strlit("rename to ");
    lemma_plain(line, "rename to ");
    {
        let list = seq!["diff --git ", "index ", "--- ", "+++ ", "@@ ", "Binary files ", "new file mode ", "deleted file mode ", "rename from ", "rename to "];
        if has_any_prefix(without_line_ending(line), list) {
            let i = choose|i: int|
                0 <= i < list.len() && has_prefix(without_line_ending(line), lit(#[trigger] list[i]));
            assert(i == 0 ==> list[i] == "diff --git ");
            assert(i == 1 ==> list[i] == "index ");
            assert(i == 2 ==> list[i] == "--- ");
            assert(i == 3 ==> list[i] == "+++ ");
            assert(i == 4 ==> list[i] == "@@ ");
            assert(i == 5 ==> list[i] == "Binary files ");
            assert(i == 6 ==> list[i] == "new file mode ");
            assert(i == 7 ==> list[i] == "deleted file mode ");
            assert(i == 8 ==> list[i] == "rename from ");
            assert(i == 9 ==> list[i] == "rename to ");
        }
        assert(list[0] == "diff --git ");
        assert(list[1] == "index ");
        assert(list[2] == "--- ");
        assert(list[3] == "+++ ");
        assert(list[4] == "@@ ");
        assert(list[5] == "Binary files ");
        assert(list[6] == "new file mode ");
        assert(list[7] == "deleted file mode ");
        assert(list[8] == "rename from ");
        assert(list[9] == "rename to ");
    }
}

proof fn lemma_diff_wording(line: Seq<u8>)
    ensures
        starts(line, "+") <==> has_prefix(without_line_ending(line), lit("+")),
        starts(line, "-") <==> has_prefix(without_line_ending(line), lit("-")),
        starts(line, "+++") <==> has_prefix(without_line_ending(line), lit("+++")),
        starts(line, "---") <==> has_prefix(without_line_ending(line), lit("---")),
{
    reveal_strlit("+");
    lemma_plain(line, "+");
    reveal_strlit("-");
    lemma_plain(line, "-");
    reveal_strlit("+++");
    lemma_plain(line, "+++");
    reveal_strlit("---");
    lemma_plain(line, "---");
}

/// In a diff, a line that adds or removes text is an example, and the lines that name files and
/// places are its structure. Only the lines between them are dropped.
pub proof fn lemma_changes_are_never_dropped(line: Seq<u8>)
    ensures
        ({
            ||| starts(line, "diff --git ")
            ||| starts(line, "index ")
            ||| starts(line, "--- ")
            ||| starts(line, "+++ ")
            ||| starts(line, "@@ ")
            ||| starts(line, "Binary files ")
            ||| starts(line, "new file mode ")
            ||| starts(line, "deleted file mode ")
            ||| starts(line, "rename from ")
            ||| starts(line, "rename to ")
        }) ==> diff::class_of(line) == EvidenceClass::Structure,
        diff::class_of(line) == EvidenceClass::Structure ==> ({
            ||| starts(line, "diff --git ")
            ||| starts(line, "index ")
            ||| starts(line, "--- ")
            ||| starts(line, "+++ ")
            ||| starts(line, "@@ ")
            ||| starts(line, "Binary files ")
            ||| starts(line, "new file mode ")
            ||| starts(line, "deleted file mode ")
            ||| starts(line, "rename from ")
            ||| starts(line, "rename to ")
        }),
        starts(line, "+") && !starts(line, "+++") && diff::class_of(line) != EvidenceClass::Structure ==> diff::class_of(line) == EvidenceClass::Example,
        starts(line, "-") && !starts(line, "---") && diff::class_of(line) != EvidenceClass::Structure ==> diff::class_of(line) == EvidenceClass::Example,
        diff::class_of(line) == EvidenceClass::Example ==> ({
            ||| starts(line, "+") && !starts(line, "+++")
            ||| starts(line, "-") && !starts(line, "---")
        }),
        diff::class_of(line) == EvidenceClass::Noise ==> ({
            ||| !starts(line, "+") && !starts(line, "-")
            ||| starts(line, "+++")
            ||| starts(line, "---")
        }) && !(starts(line, "diff --git ") || starts(line, "index ") || starts(line, "--- ") || starts(line, "+++ ") || starts(line, "@@ ") || starts(line, "Binary files ") || starts(line, "new file mode ") || starts(line, "deleted file mode ") || starts(line, "rename from ") || starts(line, "rename to ")),
        diff::class_of(line) == EvidenceClass::Noise || diff::class_of(line) == EvidenceClass::Example || diff::class_of(line) == EvidenceClass::Structure,
{
    lemma_diff_structure(line);
    lemma_diff_wording(line);
}

proof fn lemma_list_problem(line: Seq<u8>)
    ensures
        has_any_prefix_folded(trimmed_body(line), seq!["error:", "fatal:", "warning:", "gh: error"]) <==> ({
            ||| opens(line, "error:")
            ||| opens(line, "fatal:")
            ||| opens(line, "warning:")
            ||| opens(line, "gh: error")
        }),
{
    reveal_strlit("error:");
    lemma_plain(line, "error:");
    reveal_strlit("fatal:");
    lemma_plain(line, "fatal:");
    reveal_strlit("warning:");
    lemma_plain(line, "warning:");
    reveal_strlit("gh: error");
    lemma_plain(line, "gh: error");
    {
        let list = seq!["error:", "fatal:", "warning:", "gh: error"];
        if has_any_prefix_folded(trimmed_body(line), list) {
            let i = choose|i: int|
                0 <= i < list.len() && has_prefix_folded(trimmed_body(line), lit(#[trigger] list[i]));
            assert(i == 0 ==> list[i] == "error:");
            assert(i == 1 ==> list[i] == "fatal:");
            assert(i == 2 ==> list[i] == "warning:");
            assert(i == 3 ==> list[i] == "gh: error");
        }
        assert(list[0] == "error:");
        assert(list[1] == "fatal:");
        assert(list[2] == "warning:");
        assert(list[3] == "gh: error");
    }
}

proof fn lemma_list_outcome(line: Seq<u8>)
    ensures
        has_any_infix_folded(without_line_ending(line), seq!["\tsuccess\t", "\tfailure\t", "\tcancelled\t", "\tin_progress\t", "\tqueued\t"]) <==> ({
            ||| mentions(line, "\tsuccess\t")
            ||| mentions(line, "\tfailure\t")
            ||| mentions(line, "\tcancelled\t")
            ||| mentions(line, "\tin_progress\t")
            ||| mentions(line, "\tqueued\t")
        }),
{
    reveal_strlit("\tsuccess\t");
    lemma_plain(line, "\tsuccess\t");
    reveal_strlit("\tfailure\t");
    lemma_plain(line, "\tfailure\t");
    reveal_strlit("\tcancelled\t");
    lemma_plain(line, "\tcancelled\t");
    reveal_strlit("\tin_progress\t");
    lemma_plain(line, "\tin_progress\t");
    reveal_strlit("\tqueued\t");
    lemma_plain(line, "\tqueued\t");
    {
        let list = seq!["\tsuccess\t", "\tfailure\t", "\tcancelled\t", "\tin_progress\t", "\tqueued\t"];
        if has_any_infix_folded(without_line_ending(line), list) {
            let i = choose|i: int|
                0 <= i < list.len() && has_infix_folded(without_line_ending(line), lit(#[trigger] list[i]));
            assert(i == 0 ==> list[i] == "\tsuccess\t");
            assert(i == 1 ==> list[i] == "\tfailure\t");
            assert(i == 2 ==> list[i] == "\tcancelled\t");
            assert(i == 3 ==> list[i] == "\tin_progress\t");
            assert(i == 4 ==> list[i] == "\tqueued\t");
        }
        assert(list[0] == "\tsuccess\t");
        assert(list[1] == "\tfailure\t");
        assert(list[2] == "\tcancelled\t");
        assert(list[3] == "\tin_progress\t");
        assert(list[4] == "\tqueued\t");
    }
}

/// In a listing, a complaint of the tool is a diagnostic, and a row with the state of a run is an
/// outcome. Only empty lines are dropped.
pub proof fn lemma_listed_items_are_kept(line: Seq<u8>)
    ensures
        ({
            ||| opens(line, "error:")
            ||| opens(line, "fatal:")
            ||| opens(line, "warning:")
            ||| opens(line, "gh: error")
        }) ==> list::class_of(line) == EvidenceClass::Diagnostic,
        list::class_of(line) == EvidenceClass::Diagnostic ==> ({
            ||| opens(line, "error:")
            ||| opens(line, "fatal:")
            ||| opens(line, "warning:")
            ||| opens(line, "gh: error")
        }),
        ({
            ||| mentions(line, "\tsuccess\t")
            ||| mentions(line, "\tfailure\t")
            ||| mentions(line, "\tcancelled\t")
            ||| mentions(line, "\tin_progress\t")
            ||| mentions(line, "\tqueued\t")
        }) ==> list::class_of(line) == EvidenceClass::Outcome || list::class_of(line) == EvidenceClass::Diagnostic,
        list::class_of(line) == EvidenceClass::Outcome ==> ({
            ||| mentions(line, "\tsuccess\t")
            ||| mentions(line, "\tfailure\t")
            ||| mentions(line, "\tcancelled\t")
            ||| mentions(line, "\tin_progress\t")
            ||| mentions(line, "\tqueued\t")
        }),
        list::class_of(line) == EvidenceClass::Noise ==> is_empty_line(line),
        list::class_of(line) == EvidenceClass::Noise <==> without_line_ending(line).len() == 0,
        list::class_of(line) != EvidenceClass::Structure,
{
    lemma_list_problem(line);
    lemma_list_outcome(line);
    lemma_empty(line);
    if without_line_ending(line).len() == 0 {
        lemma_list_words_have_letters(line);
    }
}

proof fn lemma_list_words_have_letters(line: Seq<u8>)
    requires
        without_line_ending(line).len() == 0,
    ensures
        !(opens(line, "error:") || opens(line, "fatal:") || opens(line, "warning:") || opens(line, "gh: error") || mentions(line, "\tsuccess\t") || mentions(line, "\tfailure\t") || mentions(line, "\tcancelled\t") || mentions(line, "\tin_progress\t") || mentions(line, "\tqueued\t")),
{
    reveal_strlit("error:");
    lemma_plain(line, "error:");
    reveal_strlit("fatal:");
    lemma_plain(line, "fatal:");
    reveal_strlit("warning:");
    lemma_plain(line, "warning:");
    reveal_strlit("gh: error");
    lemma_plain(line, "gh: error");
    reveal_strlit("\tsuccess\t");
    lemma_plain(line, "\tsuccess\t");
    reveal_strlit("\tfailure\t");
    lemma_plain(line, "\tfailure\t");
    reveal_strlit("\tcancelled\t");
    lemma_plain(line, "\tcancelled\t");
    reveal_strlit("\tin_progress\t");
    lemma_plain(line, "\tin_progress\t");
    reveal_strlit("\tqueued\t");
    lemma_plain(line, "\tqueued\t");
    lemma_nothing_opens(line);
}

proof fn lemma_nothing_opens(line: Seq<u8>)
    requires
        without_line_ending(line).len() == 0,
    ensures
        trimmed_body(line).len() == 0,
        forall|word: &str|
            #![trigger lit(word)]
            lit(word).len() > 0 ==> !has_prefix_folded(trimmed_body(line), lit(word))
                && !has_infix_folded(without_line_ending(line), lit(word)) && !has_prefix_folded(
                without_line_ending(line),
                lit(word),
            ),
{
    assert forall|word: &str|
        #![trigger lit(word)]
        lit(word).len() > 0 implies !has_infix_folded(without_line_ending(line), lit(word)) by {
        if has_infix_folded(without_line_ending(line), lit(word)) {
            let at = choose|at: int| #[trigger]
                crate::bytes::occurs_at(
                    crate::bytes::folded(without_line_ending(line)),
                    crate::bytes::folded(lit(word)),
                    at,
                );
        }
    }
}

proof fn lemma_log_problem_opening(line: Seq<u8>)
    ensures
        has_any_prefix_folded(without_line_ending(line), seq!["##[error]", "##[warning]", "[error]", "[warning]", "error: ", "warning: ", "fatal: ", "panic: "]) <==> ({
            ||| starts_folded(line, "##[error]")
            ||| starts_folded(line, "##[warning]")
            ||| starts_folded(line, "[error]")
            ||| starts_folded(line, "[warning]")
            ||| starts_folded(line, "error: ")
            ||| starts_folded(line, "warning: ")
            ||| starts_folded(line, "fatal: ")
            ||| starts_folded(line, "panic: ")
        }),
{
    reveal_strlit("##[error]");
    lemma_plain(line, "##[error]");
    reveal_strlit("##[warning]");
    lemma_plain(line, "##[warning]");
    reveal_strlit("[error]");
    lemma_plain(line, "[error]");
    reveal_strlit("[warning]");
    lemma_plain(line, "[warning]");
    reveal_strlit("error: ");
    lemma_plain(line, "error: ");
    reveal_strlit("warning: ");
    lemma_plain(line, "warning: ");
    reveal_strlit("fatal: ");
    lemma_plain(line, "fatal: ");
    reveal_strlit("panic: ");
    lemma_plain(line, "panic: ");
    {
        let list = seq!["##[error]", "##[warning]", "[error]", "[warning]", "error: ", "warning: ", "fatal: ", "panic: "];
        if has_any_prefix_folded(without_line_ending(line), list) {
            let i = choose|i: int|
                0 <= i < list.len() && has_prefix_folded(without_line_ending(line), lit(#[trigger] list[i]));
            assert(i == 0 ==> list[i] == "##[error]");
            assert(i == 1 ==> list[i] == "##[warning]");
            assert(i == 2 ==> list[i] == "[error]");
            assert(i == 3 ==> list[i] == "[warning]");
            assert(i == 4 ==> list[i] == "error: ");
            assert(i == 5 ==> list[i] == "warning: ");
            assert(i == 6 ==> list[i] == "fatal: ");
            assert(i == 7 ==> list[i] == "panic: ");
        }
        assert(list[0] == "##[error]");
        assert(list[1] == "##[warning]");
        assert(list[2] == "[error]");
        assert(list[3] == "[warning]");
        assert(list[4] == "error: ");
        assert(list[5] == "warning: ");
        assert(list[6] == "fatal: ");
        assert(list[7] == "panic: ");
    }
}

proof fn lemma_log_problem_mention(line: Seq<u8>)
    ensures
        has_any_infix_folded(without_line_ending(line), seq![" ERROR ", " WARNING ", " WARN ", " FATAL ", " PANIC ", " FAILED ", "level=error", "level=warning", "\"level\":\"error\"", "\"level\":\"warning\""]) <==> ({
            ||| mentions(line, " ERROR ")
            ||| mentions(line, " WARNING ")
            ||| mentions(line, " WARN ")
            ||| mentions(line, " FATAL ")
            ||| mentions(line, " PANIC ")
            ||| mentions(line, " FAILED ")
            ||| mentions(line, "level=error")
            ||| mentions(line, "level=warning")
            ||| mentions(line, "\"level\":\"error\"")
            ||| mentions(line, "\"level\":\"warning\"")
        }),
{
    reveal_strlit(" ERROR ");
    lemma_plain(line, " ERROR ");
    reveal_strlit(" WARNING ");
    lemma_plain(line, " WARNING ");
    reveal_strlit(" WARN ");
    lemma_plain(line, " WARN ");
    reveal_strlit(" FATAL ");
    lemma_plain(line, " FATAL ");
    reveal_strlit(" PANIC ");
    lemma_plain(line, " PANIC ");
    reveal_strlit(" FAILED ");
    lemma_plain(line, " FAILED ");
    reveal_strlit("level=error");
    lemma_plain(line, "level=error");
    reveal_strlit("level=warning");
    lemma_plain(line, "level=warning");
    reveal_strlit("\"level\":\"error\"");
    lemma_plain(line, "\"level\":\"error\"");
    reveal_strlit("\"level\":\"warning\"");
    lemma_plain(line, "\"level\":\"warning\"");
    {
        let list = seq![" ERROR ", " WARNING ", " WARN ", " FATAL ", " PANIC ", " FAILED ", "level=error", "level=warning", "\"level\":\"error\"", "\"level\":\"warning\""];
        if has_any_infix_folded(without_line_ending(line), list) {
            let i = choose|i: int|
                0 <= i < list.len() && has_infix_folded(without_line_ending(line), lit(#[trigger] list[i]));
            assert(i == 0 ==> list[i] == " ERROR ");
            assert(i == 1 ==> list[i] == " WARNING ");
            assert(i == 2 ==> list[i] == " WARN ");
            assert(i == 3 ==> list[i] == " FATAL ");
            assert(i == 4 ==> list[i] == " PANIC ");
            assert(i == 5 ==> list[i] == " FAILED ");
            assert(i == 6 ==> list[i] == "level=error");
            assert(i == 7 ==> list[i] == "level=warning");
            assert(i == 8 ==> list[i] == "\"level\":\"error\"");
            assert(i == 9 ==> list[i] == "\"level\":\"warning\"");
        }
        assert(list[0] == " ERROR ");
        assert(list[1] == " WARNING ");
        assert(list[2] == " WARN ");
        assert(list[3] == " FATAL ");
        assert(list[4] == " PANIC ");
        assert(list[5] == " FAILED ");
        assert(list[6] == "level=error");
        assert(list[7] == "level=warning");
        assert(list[8] == "\"level\":\"error\"");
        assert(list[9] == "\"level\":\"warning\"");
    }
}

proof fn lemma_log_month(line: Seq<u8>)
    ensures
        has_any_prefix(without_line_ending(line), seq!["Jan ", "Feb ", "Mar ", "Apr ", "May ", "Jun ", "Jul ", "Aug ", "Sep ", "Oct ", "Nov ", "Dec "]) <==> ({
            ||| starts(line, "Jan ")
            ||| starts(line, "Feb ")
            ||| starts(line, "Mar ")
            ||| starts(line, "Apr ")
            ||| starts(line, "May ")
            ||| starts(line, "Jun ")
            ||| starts(line, "Jul ")
            ||| starts(line, "Aug ")
            ||| starts(line, "Sep ")
            ||| starts(line, "Oct ")
            ||| starts(line, "Nov ")
            ||| starts(line, "Dec ")
        }),
{
    reveal_strlit("Jan ");
    lemma_plain(line, "Jan ");
    reveal_strlit("Feb ");
    lemma_plain(line, "Feb ");
    reveal_strlit("Mar ");
    lemma_plain(line, "Mar ");
    reveal_strlit("Apr ");
    lemma_plain(line, "Apr ");
    reveal_strlit("May ");
    lemma_plain(line, "May ");
    reveal_strlit("Jun ");
    lemma_plain(line, "Jun ");
    reveal_strlit("Jul ");
    lemma_plain(line, "Jul ");
    reveal_strlit("Aug ");
    lemma_plain(line, "Aug ");
    reveal_strlit("Sep ");
    lemma_plain(line, "Sep ");
    reveal_strlit("Oct ");
    lemma_plain(line, "Oct ");
    reveal_strlit("Nov ");
    lemma_plain(line, "Nov ");
    reveal_strlit("Dec ");
    lemma_plain(line, "Dec ");
    {
        let list = seq!["Jan ", "Feb ", "Mar ", "Apr ", "May ", "Jun ", "Jul ", "Aug ", "Sep ", "Oct ", "Nov ", "Dec "];
        if has_any_prefix(without_line_ending(line), list) {
            let i = choose|i: int|
                0 <= i < list.len() && has_prefix(without_line_ending(line), lit(#[trigger] list[i]));
            assert(i == 0 ==> list[i] == "Jan ");
            assert(i == 1 ==> list[i] == "Feb ");
            assert(i == 2 ==> list[i] == "Mar ");
            assert(i == 3 ==> list[i] == "Apr ");
            assert(i == 4 ==> list[i] == "May ");
            assert(i == 5 ==> list[i] == "Jun ");
            assert(i == 6 ==> list[i] == "Jul ");
            assert(i == 7 ==> list[i] == "Aug ");
            assert(i == 8 ==> list[i] == "Sep ");
            assert(i == 9 ==> list[i] == "Oct ");
            assert(i == 10 ==> list[i] == "Nov ");
            assert(i == 11 ==> list[i] == "Dec ");
        }
        assert(list[0] == "Jan ");
        assert(list[1] == "Feb ");
        assert(list[2] == "Mar ");
        assert(list[3] == "Apr ");
        assert(list[4] == "May ");
        assert(list[5] == "Jun ");
        assert(list[6] == "Jul ");
        assert(list[7] == "Aug ");
        assert(list[8] == "Sep ");
        assert(list[9] == "Oct ");
        assert(list[10] == "Nov ");
        assert(list[11] == "Dec ");
    }
}

/// The line begins with four digits and a hyphen.
pub open spec fn starts_with_year(line: Seq<u8>) -> bool {
    &&& line.len() >= 5
    &&& 48 <= line[0] <= 57 && 48 <= line[1] <= 57 && 48 <= line[2] <= 57 && 48 <= line[3] <= 57
    &&& line[4] == 45
}

proof fn lemma_year(line: Seq<u8>)
    ensures
        starts_with_year(line) <==> starts_with_year(without_line_ending(line)),
        starts_with_year(line) <==> ({
            let body = without_line_ending(line);
            &&& body.len() >= 5
            &&& forall|i: int| 0 <= i < 4 ==> log::is_digit(#[trigger] body[i])
            &&& body[4] == 45
        }),
{
    let body = without_line_ending(line);
    if body.len() >= 5 {
        assert(body[0] == line[0] && body[1] == line[1] && body[2] == line[2] && body[3] == line[3]
            && body[4] == line[4]);
        if forall|i: int| 0 <= i < 4 ==> log::is_digit(#[trigger] body[i]) {
            assert(log::is_digit(body[0]) && log::is_digit(body[1]) && log::is_digit(body[2])
                && log::is_digit(body[3]));
        }
    }
}

proof fn lemma_log_timestamp(line: Seq<u8>)
    ensures
        log::has_timestamp(without_line_ending(line)) <==> (starts_with_year(line) || starts(line, "Jan ") || starts(line, "Feb ") || starts(line, "Mar ") || starts(line, "Apr ") || starts(line, "May ") || starts(line, "Jun ") || starts(line, "Jul ") || starts(line, "Aug ") || starts(line, "Sep ") || starts(line, "Oct ") || starts(line, "Nov ") || starts(line, "Dec ")),
{
    lemma_log_month(line);
    lemma_year(line);
}

/// In a log, a line that opens with a severity is a diagnostic, and so is a line with a timestamp
/// that names one. Nothing else is, and only empty lines are dropped.
pub proof fn lemma_logged_problems_are_diagnostics(line: Seq<u8>)
    ensures
        ({
            ||| starts_folded(line, "##[error]")
            ||| starts_folded(line, "##[warning]")
            ||| starts_folded(line, "[error]")
            ||| starts_folded(line, "[warning]")
            ||| starts_folded(line, "error: ")
            ||| starts_folded(line, "warning: ")
            ||| starts_folded(line, "fatal: ")
            ||| starts_folded(line, "panic: ")
        }) ==> log::class_of(line) == EvidenceClass::Diagnostic,
        (starts_with_year(line) || starts(line, "Jan ") || starts(line, "Feb ") || starts(line, "Mar ") || starts(line, "Apr ") || starts(line, "May ") || starts(line, "Jun ") || starts(line, "Jul ") || starts(line, "Aug ") || starts(line, "Sep ") || starts(line, "Oct ") || starts(line, "Nov ") || starts(line, "Dec ")) && ({
            ||| mentions(line, " ERROR ")
            ||| mentions(line, " WARNING ")
            ||| mentions(line, " WARN ")
            ||| mentions(line, " FATAL ")
            ||| mentions(line, " PANIC ")
            ||| mentions(line, " FAILED ")
            ||| mentions(line, "level=error")
            ||| mentions(line, "level=warning")
            ||| mentions(line, "\"level\":\"error\"")
            ||| mentions(line, "\"level\":\"warning\"")
        }) ==> log::class_of(line) == EvidenceClass::Diagnostic,
        log::class_of(line) == EvidenceClass::Diagnostic ==> ({
            ||| starts_folded(line, "##[error]")
            ||| starts_folded(line, "##[warning]")
            ||| starts_folded(line, "[error]")
            ||| starts_folded(line, "[warning]")
            ||| starts_folded(line, "error: ")
            ||| starts_folded(line, "warning: ")
            ||| starts_folded(line, "fatal: ")
            ||| starts_folded(line, "panic: ")
            ||| (starts_with_year(line) || starts(line, "Jan ") || starts(line, "Feb ") || starts(line, "Mar ") || starts(line, "Apr ") || starts(line, "May ") || starts(line, "Jun ") || starts(line, "Jul ") || starts(line, "Aug ") || starts(line, "Sep ") || starts(line, "Oct ") || starts(line, "Nov ") || starts(line, "Dec ")) && (mentions(line, " ERROR ") || mentions(line, " WARNING ") || mentions(line, " WARN ") || mentions(line, " FATAL ") || mentions(line, " PANIC ") || mentions(line, " FAILED ") || mentions(line, "level=error") || mentions(line, "level=warning") || mentions(line, "\"level\":\"error\"") || mentions(line, "\"level\":\"warning\""))
        }),
        log::class_of(line) == EvidenceClass::Noise ==> is_empty_line(line),
        log::class_of(line) == EvidenceClass::Diagnostic || log::class_of(line) == EvidenceClass::Noise || log::class_of(line) == EvidenceClass::Example,
        log::class_of(line) == EvidenceClass::Noise <==> without_line_ending(line).len() == 0,
{
    lemma_log_problem_opening(line);
    lemma_log_problem_mention(line);
    lemma_log_timestamp(line);
    lemma_empty(line);
    if without_line_ending(line).len() == 0 {
        lemma_nothing_opens(line);
        lemma_log_openings_have_letters(line);
    }
}

proof fn lemma_log_openings_have_letters(line: Seq<u8>)
    requires
        without_line_ending(line).len() == 0,
    ensures
        !(starts_folded(line, "##[error]") || starts_folded(line, "##[warning]") || starts_folded(line, "[error]") || starts_folded(line, "[warning]") || starts_folded(line, "error: ") || starts_folded(line, "warning: ") || starts_folded(line, "fatal: ") || starts_folded(line, "panic: ")),
        !log::has_timestamp(without_line_ending(line)),
{
    reveal_strlit("##[error]");
    lemma_plain(line, "##[error]");
    reveal_strlit("##[warning]");
    lemma_plain(line, "##[warning]");
    reveal_strlit("[error]");
    lemma_plain(line, "[error]");
    reveal_strlit("[warning]");
    lemma_plain(line, "[warning]");
    reveal_strlit("error: ");
    lemma_plain(line, "error: ");
    reveal_strlit("warning: ");
    lemma_plain(line, "warning: ");
    reveal_strlit("fatal: ");
    lemma_plain(line, "fatal: ");
    reveal_strlit("panic: ");
    lemma_plain(line, "panic: ");
    reveal_strlit("Jan ");
    lemma_plain(line, "Jan ");
    reveal_strlit("Feb ");
    lemma_plain(line, "Feb ");
    reveal_strlit("Mar ");
    lemma_plain(line, "Mar ");
    reveal_strlit("Apr ");
    lemma_plain(line, "Apr ");
    reveal_strlit("May ");
    lemma_plain(line, "May ");
    reveal_strlit("Jun ");
    lemma_plain(line, "Jun ");
    reveal_strlit("Jul ");
    lemma_plain(line, "Jul ");
    reveal_strlit("Aug ");
    lemma_plain(line, "Aug ");
    reveal_strlit("Sep ");
    lemma_plain(line, "Sep ");
    reveal_strlit("Oct ");
    lemma_plain(line, "Oct ");
    reveal_strlit("Nov ");
    lemma_plain(line, "Nov ");
    reveal_strlit("Dec ");
    lemma_plain(line, "Dec ");
    lemma_nothing_opens(line);
    lemma_log_timestamp(line);
    lemma_log_month(line);
}

proof fn lemma_search_opening(line: Seq<u8>)
    ensures
        has_any_prefix(without_line_ending(line), seq!["rg:", "grep:", "git grep:", "error:"]) <==> ({
            ||| starts(line, "rg:")
            ||| starts(line, "grep:")
            ||| starts(line, "git grep:")
            ||| starts(line, "error:")
        }),
{
    reveal_strlit("rg:");
    lemma_plain(line, "rg:");
    reveal_strlit("grep:");
    lemma_plain(line, "grep:");
    reveal_strlit("git grep:");
    lemma_plain(line, "git grep:");
    reveal_strlit("error:");
    lemma_plain(line, "error:");
    {
        let list = seq!["rg:", "grep:", "git grep:", "error:"];
        if has_any_prefix(without_line_ending(line), list) {
            let i = choose|i: int|
                0 <= i < list.len() && has_prefix(without_line_ending(line), lit(#[trigger] list[i]));
            assert(i == 0 ==> list[i] == "rg:");
            assert(i == 1 ==> list[i] == "grep:");
            assert(i == 2 ==> list[i] == "git grep:");
            assert(i == 3 ==> list[i] == "error:");
        }
        assert(list[0] == "rg:");
        assert(list[1] == "grep:");
        assert(list[2] == "git grep:");
        assert(list[3] == "error:");
    }
}

proof fn lemma_failure_words(line: Seq<u8>)
    ensures
        has_any_infix_folded(without_line_ending(line), seq!["error", "failed", "failure", "warning", "panic", "fatal", "exception", "traceback", "segmentation fault"]) <==> ({
            ||| mentions(line, "error")
            ||| mentions(line, "failed")
            ||| mentions(line, "failure")
            ||| mentions(line, "warning")
            ||| mentions(line, "panic")
            ||| mentions(line, "fatal")
            ||| mentions(line, "exception")
            ||| mentions(line, "traceback")
            ||| mentions(line, "segmentation fault")
        }),
{
    reveal_strlit("error");
    lemma_plain(line, "error");
    reveal_strlit("failed");
    lemma_plain(line, "failed");
    reveal_strlit("failure");
    lemma_plain(line, "failure");
    reveal_strlit("warning");
    lemma_plain(line, "warning");
    reveal_strlit("panic");
    lemma_plain(line, "panic");
    reveal_strlit("fatal");
    lemma_plain(line, "fatal");
    reveal_strlit("exception");
    lemma_plain(line, "exception");
    reveal_strlit("traceback");
    lemma_plain(line, "traceback");
    reveal_strlit("segmentation fault");
    lemma_plain(line, "segmentation fault");
    {
        let list = seq!["error", "failed", "failure", "warning", "panic", "fatal", "exception", "traceback", "segmentation fault"];
        if has_any_infix_folded(without_line_ending(line), list) {
            let i = choose|i: int|
                0 <= i < list.len() && has_infix_folded(without_line_ending(line), lit(#[trigger] list[i]));
            assert(i == 0 ==> list[i] == "error");
            assert(i == 1 ==> list[i] == "failed");
            assert(i == 2 ==> list[i] == "failure");
            assert(i == 3 ==> list[i] == "warning");
            assert(i == 4 ==> list[i] == "panic");
            assert(i == 5 ==> list[i] == "fatal");
            assert(i == 6 ==> list[i] == "exception");
            assert(i == 7 ==> list[i] == "traceback");
            assert(i == 8 ==> list[i] == "segmentation fault");
        }
        assert(list[0] == "error");
        assert(list[1] == "failed");
        assert(list[2] == "failure");
        assert(list[3] == "warning");
        assert(list[4] == "panic");
        assert(list[5] == "fatal");
        assert(list[6] == "exception");
        assert(list[7] == "traceback");
        assert(list[8] == "segmentation fault");
    }
}

/// In the output of a search, a complaint of the tool is a diagnostic. Every other line with text is
/// an example, whatever it says: it is a match. Only empty lines are dropped.
pub proof fn lemma_matches_are_kept(line: Seq<u8>)
    ensures
        ({
            ||| starts(line, "rg:")
            ||| starts(line, "grep:")
            ||| starts(line, "git grep:")
            ||| starts(line, "error:")
        }) && ({
            ||| mentions(line, "error")
            ||| mentions(line, "failed")
            ||| mentions(line, "failure")
            ||| mentions(line, "warning")
            ||| mentions(line, "panic")
            ||| mentions(line, "fatal")
            ||| mentions(line, "exception")
            ||| mentions(line, "traceback")
            ||| mentions(line, "segmentation fault")
        }) ==> search::class_of(line) == EvidenceClass::Diagnostic,
        search::class_of(line) == EvidenceClass::Diagnostic ==> (starts(line, "rg:") || starts(line, "grep:") || starts(line, "git grep:") || starts(line, "error:")) && (mentions(line, "error") || mentions(line, "failed") || mentions(line, "failure") || mentions(line, "warning") || mentions(line, "panic") || mentions(line, "fatal") || mentions(line, "exception") || mentions(line, "traceback") || mentions(line, "segmentation fault")),
        search::class_of(line) == EvidenceClass::Noise ==> is_empty_line(line),
        search::class_of(line) == EvidenceClass::Diagnostic || search::class_of(line) == EvidenceClass::Noise || search::class_of(line) == EvidenceClass::Example,
        search::class_of(line) == EvidenceClass::Noise <==> without_line_ending(line).len() == 0,
{
    lemma_search_opening(line);
    lemma_failure_words(line);
    lemma_empty(line);
    if without_line_ending(line).len() == 0 {
        lemma_search_openings_have_letters(line);
    }
}

proof fn lemma_search_openings_have_letters(line: Seq<u8>)
    requires
        without_line_ending(line).len() == 0,
    ensures
        !(starts(line, "rg:") || starts(line, "grep:") || starts(line, "git grep:") || starts(line, "error:")),
{
    reveal_strlit("rg:");
    lemma_plain(line, "rg:");
    reveal_strlit("grep:");
    lemma_plain(line, "grep:");
    reveal_strlit("git grep:");
    lemma_plain(line, "git grep:");
    reveal_strlit("error:");
    lemma_plain(line, "error:");
    lemma_nothing_opens(line);
}

proof fn lemma_status_outcome_opening(line: Seq<u8>)
    ensures
        has_any_prefix(trimmed_body(line), seq!["On branch ", "Your branch ", "HEAD detached", "## ", "Active:", "Loaded:"]) <==> ({
            ||| opens_exactly(line, "On branch ")
            ||| opens_exactly(line, "Your branch ")
            ||| opens_exactly(line, "HEAD detached")
            ||| opens_exactly(line, "## ")
            ||| opens_exactly(line, "Active:")
            ||| opens_exactly(line, "Loaded:")
        }),
{
    reveal_strlit("On branch ");
    lemma_plain(line, "On branch ");
    reveal_strlit("Your branch ");
    lemma_plain(line, "Your branch ");
    reveal_strlit("HEAD detached");
    lemma_plain(line, "HEAD detached");
    reveal_strlit("## ");
    lemma_plain(line, "## ");
    reveal_strlit("Active:");
    lemma_plain(line, "Active:");
    reveal_strlit("Loaded:");
    lemma_plain(line, "Loaded:");
    {
        let list = seq!["On branch ", "Your branch ", "HEAD detached", "## ", "Active:", "Loaded:"];
        if has_any_prefix(trimmed_body(line), list) {
            let i = choose|i: int|
                0 <= i < list.len() && has_prefix(trimmed_body(line), lit(#[trigger] list[i]));
            assert(i == 0 ==> list[i] == "On branch ");
            assert(i == 1 ==> list[i] == "Your branch ");
            assert(i == 2 ==> list[i] == "HEAD detached");
            assert(i == 3 ==> list[i] == "## ");
            assert(i == 4 ==> list[i] == "Active:");
            assert(i == 5 ==> list[i] == "Loaded:");
        }
        assert(list[0] == "On branch ");
        assert(list[1] == "Your branch ");
        assert(list[2] == "HEAD detached");
        assert(list[3] == "## ");
        assert(list[4] == "Active:");
        assert(list[5] == "Loaded:");
    }
}

proof fn lemma_status_outcome_mention(line: Seq<u8>)
    ensures
        has_any_infix_folded(trimmed_body(line), seq!["process completed with exit code", "command failed with exit code", "test files  ", "tests  "]) <==> ({
            ||| mentions(line, "process completed with exit code")
            ||| mentions(line, "command failed with exit code")
            ||| mentions(line, "test files  ")
            ||| mentions(line, "tests  ")
        }),
{
    reveal_strlit("process completed with exit code");
    lemma_plain(line, "process completed with exit code");
    reveal_strlit("command failed with exit code");
    lemma_plain(line, "command failed with exit code");
    reveal_strlit("test files  ");
    lemma_plain(line, "test files  ");
    reveal_strlit("tests  ");
    lemma_plain(line, "tests  ");
    {
        let list = seq!["process completed with exit code", "command failed with exit code", "test files  ", "tests  "];
        if has_any_infix_folded(trimmed_body(line), list) {
            let i = choose|i: int|
                0 <= i < list.len() && has_infix_folded(trimmed_body(line), lit(#[trigger] list[i]));
            assert(i == 0 ==> list[i] == "process completed with exit code");
            assert(i == 1 ==> list[i] == "command failed with exit code");
            assert(i == 2 ==> list[i] == "test files  ");
            assert(i == 3 ==> list[i] == "tests  ");
        }
        assert(list[0] == "process completed with exit code");
        assert(list[1] == "command failed with exit code");
        assert(list[2] == "test files  ");
        assert(list[3] == "tests  ");
    }
}

proof fn lemma_status_problem_mention(line: Seq<u8>)
    ensures
        has_any_infix_folded(trimmed_body(line), seq!["##[error]", "##[warning]", "npm error", "failure reason:", "level=error", "level=warning", "\"level\":\"error\"", "\"level\":\"warning\""]) <==> ({
            ||| mentions(line, "##[error]")
            ||| mentions(line, "##[warning]")
            ||| mentions(line, "npm error")
            ||| mentions(line, "failure reason:")
            ||| mentions(line, "level=error")
            ||| mentions(line, "level=warning")
            ||| mentions(line, "\"level\":\"error\"")
            ||| mentions(line, "\"level\":\"warning\"")
        }),
{
    reveal_strlit("##[error]");
    lemma_plain(line, "##[error]");
    reveal_strlit("##[warning]");
    lemma_plain(line, "##[warning]");
    reveal_strlit("npm error");
    lemma_plain(line, "npm error");
    reveal_strlit("failure reason:");
    lemma_plain(line, "failure reason:");
    reveal_strlit("level=error");
    lemma_plain(line, "level=error");
    reveal_strlit("level=warning");
    lemma_plain(line, "level=warning");
    reveal_strlit("\"level\":\"error\"");
    lemma_plain(line, "\"level\":\"error\"");
    reveal_strlit("\"level\":\"warning\"");
    lemma_plain(line, "\"level\":\"warning\"");
    {
        let list = seq!["##[error]", "##[warning]", "npm error", "failure reason:", "level=error", "level=warning", "\"level\":\"error\"", "\"level\":\"warning\""];
        if has_any_infix_folded(trimmed_body(line), list) {
            let i = choose|i: int|
                0 <= i < list.len() && has_infix_folded(trimmed_body(line), lit(#[trigger] list[i]));
            assert(i == 0 ==> list[i] == "##[error]");
            assert(i == 1 ==> list[i] == "##[warning]");
            assert(i == 2 ==> list[i] == "npm error");
            assert(i == 3 ==> list[i] == "failure reason:");
            assert(i == 4 ==> list[i] == "level=error");
            assert(i == 5 ==> list[i] == "level=warning");
            assert(i == 6 ==> list[i] == "\"level\":\"error\"");
            assert(i == 7 ==> list[i] == "\"level\":\"warning\"");
        }
        assert(list[0] == "##[error]");
        assert(list[1] == "##[warning]");
        assert(list[2] == "npm error");
        assert(list[3] == "failure reason:");
        assert(list[4] == "level=error");
        assert(list[5] == "level=warning");
        assert(list[6] == "\"level\":\"error\"");
        assert(list[7] == "\"level\":\"warning\"");
    }
}

proof fn lemma_status_severity(line: Seq<u8>)
    ensures
        has_any_infix(trimmed_body(line), seq![" ERROR ", " WARNING ", " WARN ", " FATAL ", " PANIC "]) <==> ({
            ||| mentions_exactly_inside(line, " ERROR ")
            ||| mentions_exactly_inside(line, " WARNING ")
            ||| mentions_exactly_inside(line, " WARN ")
            ||| mentions_exactly_inside(line, " FATAL ")
            ||| mentions_exactly_inside(line, " PANIC ")
        }),
{
    reveal_strlit(" ERROR ");
    lemma_plain(line, " ERROR ");
    reveal_strlit(" WARNING ");
    lemma_plain(line, " WARNING ");
    reveal_strlit(" WARN ");
    lemma_plain(line, " WARN ");
    reveal_strlit(" FATAL ");
    lemma_plain(line, " FATAL ");
    reveal_strlit(" PANIC ");
    lemma_plain(line, " PANIC ");
    {
        let list = seq![" ERROR ", " WARNING ", " WARN ", " FATAL ", " PANIC "];
        if has_any_infix(trimmed_body(line), list) {
            let i = choose|i: int|
                0 <= i < list.len() && has_infix(trimmed_body(line), lit(#[trigger] list[i]));
            assert(i == 0 ==> list[i] == " ERROR ");
            assert(i == 1 ==> list[i] == " WARNING ");
            assert(i == 2 ==> list[i] == " WARN ");
            assert(i == 3 ==> list[i] == " FATAL ");
            assert(i == 4 ==> list[i] == " PANIC ");
        }
        assert(list[0] == " ERROR ");
        assert(list[1] == " WARNING ");
        assert(list[2] == " WARN ");
        assert(list[3] == " FATAL ");
        assert(list[4] == " PANIC ");
    }
}

/// In a status report, a line that names the overall state is an outcome, and a line that names an
/// error or a warning is a diagnostic unless it is an outcome. Headings are structure, and only
/// empty lines are dropped.
pub proof fn lemma_status_lines_are_kept(line: Seq<u8>)
    ensures
        status::class_of(line) == EvidenceClass::Outcome <==> ({
            ||| opens_exactly(line, "On branch ")
            ||| opens_exactly(line, "Your branch ")
            ||| opens_exactly(line, "HEAD detached")
            ||| opens_exactly(line, "## ")
            ||| opens_exactly(line, "Active:")
            ||| opens_exactly(line, "Loaded:")
            ||| mentions(line, "process completed with exit code")
            ||| mentions(line, "command failed with exit code")
            ||| mentions(line, "test files  ")
            ||| mentions(line, "tests  ")
        }),
        ({
            ||| mentions(line, "##[error]")
            ||| mentions(line, "##[warning]")
            ||| mentions(line, "npm error")
            ||| mentions(line, "failure reason:")
            ||| mentions(line, "level=error")
            ||| mentions(line, "level=warning")
            ||| mentions(line, "\"level\":\"error\"")
            ||| mentions(line, "\"level\":\"warning\"")
            ||| mentions_exactly_inside(line, " ERROR ")
            ||| mentions_exactly_inside(line, " WARNING ")
            ||| mentions_exactly_inside(line, " WARN ")
            ||| mentions_exactly_inside(line, " FATAL ")
            ||| mentions_exactly_inside(line, " PANIC ")
        }) ==> status::class_of(line) == EvidenceClass::Diagnostic || status::class_of(line) == EvidenceClass::Outcome,
        status::class_of(line) == EvidenceClass::Diagnostic ==> ({
            ||| mentions(line, "##[error]")
            ||| mentions(line, "##[warning]")
            ||| mentions(line, "npm error")
            ||| mentions(line, "failure reason:")
            ||| mentions(line, "level=error")
            ||| mentions(line, "level=warning")
            ||| mentions(line, "\"level\":\"error\"")
            ||| mentions(line, "\"level\":\"warning\"")
            ||| mentions_exactly_inside(line, " ERROR ")
            ||| mentions_exactly_inside(line, " WARNING ")
            ||| mentions_exactly_inside(line, " WARN ")
            ||| mentions_exactly_inside(line, " FATAL ")
            ||| mentions_exactly_inside(line, " PANIC ")
        }),
        status::class_of(line) == EvidenceClass::Structure ==> ends(line, ":"),
        has_suffix(trimmed_body(line), lit(":")) ==> status::class_of(line) != EvidenceClass::Example && status::class_of(line) != EvidenceClass::Noise,
        status::class_of(line) == EvidenceClass::Noise ==> is_empty_line(line),
{
    lemma_status_outcome_opening(line);
    lemma_status_outcome_mention(line);
    lemma_status_problem_mention(line);
    lemma_status_severity(line);
    lemma_empty(line);
    reveal_strlit(":");
    lemma_plain(line, ":");
}

proof fn lemma_tool_outcome_opening(line: Seq<u8>)
    ensures
        has_any_prefix(trimmed_body(line), seq!["Process exited with code ", "Process running with session ID ", "Command exited with code ", "Command timed out"]) <==> ({
            ||| opens_exactly(line, "Process exited with code ")
            ||| opens_exactly(line, "Process running with session ID ")
            ||| opens_exactly(line, "Command exited with code ")
            ||| opens_exactly(line, "Command timed out")
        }),
{
    reveal_strlit("Process exited with code ");
    lemma_plain(line, "Process exited with code ");
    reveal_strlit("Process running with session ID ");
    lemma_plain(line, "Process running with session ID ");
    reveal_strlit("Command exited with code ");
    lemma_plain(line, "Command exited with code ");
    reveal_strlit("Command timed out");
    lemma_plain(line, "Command timed out");
    {
        let list = seq!["Process exited with code ", "Process running with session ID ", "Command exited with code ", "Command timed out"];
        if has_any_prefix(trimmed_body(line), list) {
            let i = choose|i: int|
                0 <= i < list.len() && has_prefix(trimmed_body(line), lit(#[trigger] list[i]));
            assert(i == 0 ==> list[i] == "Process exited with code ");
            assert(i == 1 ==> list[i] == "Process running with session ID ");
            assert(i == 2 ==> list[i] == "Command exited with code ");
            assert(i == 3 ==> list[i] == "Command timed out");
        }
        assert(list[0] == "Process exited with code ");
        assert(list[1] == "Process running with session ID ");
        assert(list[2] == "Command exited with code ");
        assert(list[3] == "Command timed out");
    }
}

/// A line that tells how a tool run ended, or how to follow it, states the outcome of the tool, and
/// no other line does.
pub proof fn lemma_tool_outcomes(line: Seq<u8>)
    ensures
        super::classify::states_tool_outcome(line) <==> ({
            ||| opens_exactly(line, "Process exited with code ")
            ||| opens_exactly(line, "Process running with session ID ")
            ||| opens_exactly(line, "Command exited with code ")
            ||| opens_exactly(line, "Command timed out")
        }),
{
    lemma_tool_outcome_opening(line);
}

proof fn lemma_registered_mention(line: Seq<u8>)
    ensures
        has_any_infix_folded(without_line_ending(line), seq!["failure", "panic", "error", "warning", "test result"]) <==> ({
            ||| mentions(line, "failure")
            ||| mentions(line, "panic")
            ||| mentions(line, "error")
            ||| mentions(line, "warning")
            ||| mentions(line, "test result")
        }),
{
    reveal_strlit("failure");
    lemma_plain(line, "failure");
    reveal_strlit("panic");
    lemma_plain(line, "panic");
    reveal_strlit("error");
    lemma_plain(line, "error");
    reveal_strlit("warning");
    lemma_plain(line, "warning");
    reveal_strlit("test result");
    lemma_plain(line, "test result");
    {
        let list = seq!["failure", "panic", "error", "warning", "test result"];
        if has_any_infix_folded(without_line_ending(line), list) {
            let i = choose|i: int|
                0 <= i < list.len() && has_infix_folded(without_line_ending(line), lit(#[trigger] list[i]));
            assert(i == 0 ==> list[i] == "failure");
            assert(i == 1 ==> list[i] == "panic");
            assert(i == 2 ==> list[i] == "error");
            assert(i == 3 ==> list[i] == "warning");
            assert(i == 4 ==> list[i] == "test result");
        }
        assert(list[0] == "failure");
        assert(list[1] == "panic");
        assert(list[2] == "error");
        assert(list[3] == "warning");
        assert(list[4] == "test result");
    }
}

/// The terms that a summary always reports.
pub proof fn lemma_registered_terms(line: Seq<u8>)
    ensures
        super::classify::names_registered_term(without_line_ending(line)) <==> ({
            ||| mentions(line, "failure")
            ||| mentions(line, "panic")
            ||| mentions(line, "error")
            ||| mentions(line, "warning")
            ||| mentions(line, "test result")
        }),
{
    lemma_registered_mention(line);
}

} // verus!
