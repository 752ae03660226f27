//! What the result of a search says.
use vstd::prelude::*;
use vstd::utf8::encode_utf8;

use super::arguments::OptionsModel;
use super::laws::{all_fit, is_near, is_shown};
use super::lines::{display_text, source_lines, visible_text};
use super::results::{
    EntryModel, OutcomeModel, SourceSearchModel, context_start, found_in, groups_of, groups_text,
    range_text, search_outcome, selected_in, some_group_holds, source_search, sources_text,
};
use crate::archive::model::{SourceName, VerifiedSource};
use crate::bytes::{decimal, lemma_stands_in_longer, lemma_stands_in_whole, lit, stands_in};

verus! {

/// How a line is printed: the name of its source, its number and its text, with colons where it was
/// selected and hyphens where it is context.
pub open spec fn printed(name: SourceName, entry: EntryModel) -> Seq<u8> {
    let source = match name {
        SourceName::Stdout => lit("stdout"),
        SourceName::Stderr => lit("stderr"),
        SourceName::SourceOutput => lit("source_output"),
        SourceName::ResultText => lit("result_text"),
    };
    if entry.selected {
        source + lit(":") + decimal(entry.number as nat) + lit(":") + encode_utf8(entry.text) + lit(
            "\n",
        )
    } else {
        source + lit("-") + decimal(entry.number as nat) + lit("-") + encode_utf8(entry.text) + lit(
            "\n",
        )
    }
}

proof fn lemma_range_prints(
    name: SourceName,
    lines: Seq<EntryModel>,
    start: u64,
    end: u64,
    place: int,
)
    requires
        0 <= place < lines.len(),
        start <= lines[place].number <= end,
    ensures
        stands_in(range_text(name, lines, start, end), printed(name, lines[place])),
    decreases lines.len(),
{
    let entry = lines[place];
    if place == lines.len() - 1 {
        lemma_stands_in_whole(printed(name, entry));
        lemma_stands_in_longer(
            range_text(name, lines.drop_last(), start, end),
            printed(name, entry),
            Seq::empty(),
            printed(name, entry),
        );
    } else {
        lemma_range_prints(name, lines.drop_last(), start, end, place);
        lemma_stands_in_longer(
            Seq::empty(),
            range_text(name, lines.drop_last(), start, end),
            super::results::entry_text(name, lines.last()),
            printed(name, entry),
        );
    }
}

proof fn lemma_groups_print(
    name: SourceName,
    lines: Seq<EntryModel>,
    groups: Seq<(u64, u64)>,
    count: nat,
    place: int,
    group: int,
)
    requires
        0 <= place < lines.len(),
        0 <= group < count <= groups.len(),
        groups[group].0 <= lines[place].number <= groups[group].1,
    ensures
        stands_in(groups_text(name, lines, groups, count), printed(name, lines[place])),
    decreases count,
{
    let part = printed(name, lines[place]);
    let rest = groups_text(name, lines, groups, (count - 1) as nat);
    let range = range_text(name, lines, groups[count - 1].0, groups[count - 1].1);
    let separator = if count > 1 {
        lit("--\n")
    } else {
        Seq::empty()
    };
    if group == count - 1 {
        lemma_range_prints(name, lines, groups[group].0, groups[group].1, place);
        lemma_stands_in_longer(rest + separator, range, Seq::empty(), part);
    } else {
        lemma_groups_print(name, lines, groups, (count - 1) as nat, place, group);
        lemma_stands_in_longer(Seq::empty(), rest, separator, part);
        lemma_stands_in_longer(Seq::empty(), rest + separator, range, part);
    }
}

proof fn lemma_last_range_starts_early(
    selected: Seq<u64>,
    before: nat,
    after: nat,
    total_lines: u64,
    next: u64,
)
    requires
        forall|i: int| 0 <= i < selected.len() ==> #[trigger] selected[i] < next,
    ensures
        ({
            let groups = groups_of(selected, before, after, total_lines);
            groups.len() > 0 ==> groups.last().0 <= context_start(next, before)
        }),
    decreases selected.len(),
{
    if selected.len() > 0 {
        assert(selected[selected.len() - 1] == selected.last());
        assert forall|i: int| 0 <= i < selected.drop_last().len() implies
            #[trigger] selected.drop_last()[i] < next by {
            assert(selected.drop_last()[i] == selected[i]);
        }
        lemma_last_range_starts_early(selected.drop_last(), before, after, total_lines, next);
    }
}

/// Every line of the context of a match is in one of the ranges.
proof fn lemma_groups_hold_context(
    selected: Seq<u64>,
    before: nat,
    after: nat,
    total_lines: u64,
    place: int,
    line: u64,
)
    requires
        forall|i: int| 0 <= i < selected.len() ==> 1 <= #[trigger] selected[i] <= total_lines,
        forall|i: int, j: int|
            0 <= i < j < selected.len() ==> #[trigger] selected[i] < #[trigger] selected[j],
        0 <= place < selected.len(),
        1 <= line <= total_lines,
        selected[place] - before <= line,
        line <= selected[place] + after,
    ensures
        some_group_holds(groups_of(selected, before, after, total_lines), line),
    decreases selected.len(),
{
    let fewer = selected.drop_last();
    let rest = groups_of(fewer, before, after, total_lines);
    let groups = groups_of(selected, before, after, total_lines);
    if place == selected.len() - 1 {
        let last = groups.len() - 1;
        assert forall|i: int| 0 <= i < fewer.len() implies #[trigger] fewer[i]
            < selected.last() by {
            assert(fewer[i] == selected[i]);
            assert(selected[i] < selected[selected.len() - 1]);
        }
        lemma_last_range_starts_early(fewer, before, after, total_lines, selected.last());
        assert(groups[last].0 <= line <= groups[last].1);
    } else {
        assert(fewer[place] == selected[place]);
        assert forall|i: int, j: int| 0 <= i < j < fewer.len() implies #[trigger] fewer[i]
            < #[trigger] fewer[j] by {
            assert(fewer[i] == selected[i] && fewer[j] == selected[j]);
        }
        lemma_groups_hold_context(fewer, before, after, total_lines, place, line);
        let g = choose|g: int| 0 <= g < rest.len() && (#[trigger] rest[g]).0 <= line <= rest[g].1;
        assert(groups[g].0 <= line <= groups[g].1);
    }
}

/// A search prints every line that it shows, under the name of its source and its own number. The
/// heading says how many lines were selected and how many of them are shown, and what was asked
/// for.
pub proof fn lemma_search_prints_what_it_shows(
    source: VerifiedSource,
    options: OptionsModel,
    place: int,
)
    requires
        source_search(source, options) is Ok,
        all_fit(source_lines(source.body@)),
        options.max_results > 0,
        0 <= place < source_search(source, options)->Ok_0.lines.len(),
    ensures
        ({
            let found = source_search(source, options)->Ok_0;
            let text = found.text(options.archive_ref);
            &&& found.name == source.name
            &&& stands_in(text, printed(source.name, found.lines[place]))
            &&& stands_in(
                text,
                lit(" matches=") + decimal(found.total_selected as nat) + lit(" showing=")
                    + decimal(found.displayed_selected.len()) + lit(" before=") + decimal(
                    options.before,
                ) + lit(" after=") + decimal(options.after) + lit(" max_results=") + decimal(
                    options.max_results,
                ) + lit("]\n"),
            )
        }),
{
    let found = source_search(source, options)->Ok_0;
    let lines = source_lines(source.body@);
    let entry = found.lines[place];
    super::laws::lemma_search_shows_matches_with_context(source, options);
    super::laws::lemma_search_shows_the_source(source, options);
    assert(super::laws::is_shown_line(lines, options, entry));
    assert(is_shown(found.lines, entry.number as int));
    assert(is_near(found.displayed_selected, options, entry.number as int));
    let at = choose|i: int|
        0 <= i < found.displayed_selected.len() && #[trigger] found.displayed_selected[i]
            - options.before <= entry.number && entry.number <= found.displayed_selected[i]
            + options.after;
    let groups = found.groups();
    lemma_groups_hold_context(
        found.displayed_selected,
        found.before,
        found.after,
        found.total_lines,
        at,
        entry.number,
    );
    let g = choose|g: int|
        0 <= g < groups.len() && (#[trigger] groups[g]).0 <= entry.number <= groups[g].1;
    let part = printed(found.name, entry);
    lemma_groups_print(found.name, found.lines, groups, groups.len(), place, g);
    let printed_groups = groups_text(found.name, found.lines, groups, groups.len());
    let hints = super::results::hints_text(
        options.archive_ref,
        found.name,
        groups,
        groups.len(),
    );
    lemma_stands_in_longer(found.heading(), printed_groups, found.omission(), part);
    lemma_stands_in_longer(
        Seq::empty(),
        found.heading() + printed_groups + found.omission(),
        hints,
        part,
    );
    let counts = lit(" matches=") + decimal(found.total_selected as nat) + lit(" showing=")
        + decimal(found.displayed_selected.len()) + lit(" before=") + decimal(options.before) + lit(
        " after=",
    ) + decimal(options.after) + lit(" max_results=") + decimal(options.max_results) + lit("]\n");
    let start = lit("[source=") + encode_utf8(found.name.text()) + lit(" complete=") + encode_utf8(
        super::results::completeness_text(found.completeness),
    );
    assert(found.heading() =~= start + counts + Seq::empty());
    lemma_stands_in_whole(counts);
    lemma_stands_in_longer(start, counts, Seq::empty(), counts);
    assert(stands_in(found.heading(), counts));
    lemma_stands_in_longer(Seq::empty(), found.heading(), printed_groups, counts);
    lemma_stands_in_longer(
        Seq::empty(),
        found.heading() + printed_groups,
        found.omission(),
        counts,
    );
    lemma_stands_in_longer(
        Seq::empty(),
        found.heading() + printed_groups + found.omission(),
        hints,
        counts,
    );
}

proof fn lemma_sources_print(
    archive_ref: Seq<char>,
    sources: Seq<SourceSearchModel>,
    count: nat,
    place: int,
)
    requires
        0 <= place < count <= sources.len(),
    ensures
        stands_in(
            sources_text(archive_ref, sources, count),
            sources[place].text(archive_ref),
        ),
    decreases count,
{
    let part = sources[place].text(archive_ref);
    let rest = sources_text(archive_ref, sources, (count - 1) as nat);
    let separator = if count > 1 {
        lit("--\n")
    } else {
        Seq::empty()
    };
    let last = sources[count - 1].text(archive_ref);
    if place == count - 1 {
        lemma_stands_in_whole(part);
        lemma_stands_in_longer(rest + separator, part, Seq::empty(), part);
    } else {
        lemma_sources_print(archive_ref, sources, (count - 1) as nat, place);
        lemma_stands_in_longer(Seq::empty(), rest, separator, part);
        lemma_stands_in_longer(Seq::empty(), rest + separator, last, part);
    }
}

proof fn lemma_found_in_each(sources: Seq<VerifiedSource>, count: nat, options: OptionsModel)
    requires
        count <= sources.len(),
        found_in(sources, count, options) is Ok,
    ensures
        ({
            let found = found_in(sources, count, options)->Ok_0;
            &&& found.len() == count
            &&& forall|i: int|
                0 <= i < count ==> source_search(#[trigger] sources[i], options) == Ok::<
                    SourceSearchModel,
                    Seq<char>,
                >(found[i])
        }),
    decreases count,
{
    if count > 0 {
        lemma_found_in_each(sources, (count - 1) as nat, options);
    }
}

proof fn lemma_some_selected(found: Seq<SourceSearchModel>)
    ensures
        selected_in(found) == 0 <==> forall|i: int|
            0 <= i < found.len() ==> (#[trigger] found[i]).total_selected == 0,
    decreases found.len(),
{
    if found.len() > 0 {
        let rest = found.drop_last();
        lemma_some_selected(rest);
        assert(found[found.len() - 1] == found.last());
        if selected_in(found) == 0 {
            assert forall|i: int| 0 <= i < found.len() implies (
            #[trigger] found[i]).total_selected == 0 by {
                if i < rest.len() {
                    assert(rest[i] == found[i]);
                }
            }
        }
        if forall|i: int| 0 <= i < found.len() ==> (#[trigger] found[i]).total_selected == 0 {
            assert forall|i: int| 0 <= i < rest.len() implies (
            #[trigger] rest[i]).total_selected == 0 by {
                assert(rest[i] == found[i]);
            }
        }
    }
}

/// A search says that there are no matches if and only if it selects no line of any source.
/// Otherwise it prints what it found in every source.
pub proof fn lemma_outcome_tells_of_every_source(
    sources: Seq<VerifiedSource>,
    options: OptionsModel,
)
    ensures
        search_outcome(sources, options) matches Ok(outcome) ==> {
            &&& forall|i: int|
                0 <= i < sources.len() ==> source_search(#[trigger] sources[i], options) is Ok
            &&& outcome is NoMatches <==> forall|i: int|
                0 <= i < sources.len() ==> source_search(
                    #[trigger] sources[i],
                    options,
                )->Ok_0.total_selected == 0
            &&& outcome matches OutcomeModel::Matches(output) ==> output.len() <= 32_768 && forall|
                i: int,
            |
                0 <= i < sources.len() ==> stands_in(
                    output,
                    source_search(#[trigger] sources[i], options)->Ok_0.text(options.archive_ref),
                )
        },
{
    if let Ok(outcome) = search_outcome(sources, options) {
        let found = found_in(sources, sources.len(), options)->Ok_0;
        lemma_found_in_each(sources, sources.len(), options);
        lemma_some_selected(found);
        if selected_in(found) == 0 {
            assert forall|i: int| 0 <= i < sources.len() implies source_search(
                #[trigger] sources[i],
                options,
            )->Ok_0.total_selected == 0 by {
                assert(found[i].total_selected == 0);
            }
        } else {
            let i = choose|i: int|
                0 <= i < found.len() && (#[trigger] found[i]).total_selected != 0;
            assert(source_search(sources[i], options)->Ok_0.total_selected != 0);
        }
        if let OutcomeModel::Matches(output) = outcome {
            assert forall|i: int| 0 <= i < sources.len() implies stands_in(
                output,
                source_search(#[trigger] sources[i], options)->Ok_0.text(options.archive_ref),
            ) by {
                lemma_sources_print(options.archive_ref, found, found.len(), i);
            }
        }
    }
}

/// Text without control characters is shown as it is, where it is not too long.
pub proof fn lemma_plain_text_is_shown(text: Seq<char>)
    requires
        forall|i: int|
            0 <= i < text.len() ==> (#[trigger] text[i] == '\t' || (text[i] as u32 >= 0x20 && !(0x7f
                <= text[i] as u32 <= 0x9f))),
    ensures
        visible_text(text) == text,
        encode_utf8(text).len() <= 4_096 ==> display_text(text) == text,
    decreases text.len(),
{
    if text.len() > 0 {
        let rest = text.drop_last();
        assert forall|i: int| 0 <= i < rest.len() implies (#[trigger] rest[i] == '\t' || (
        rest[i] as u32 >= 0x20 && !(0x7f <= rest[i] as u32 <= 0x9f))) by {
            assert(rest[i] == text[i]);
        }
        lemma_plain_text_is_shown(rest);
        assert(text[text.len() - 1] == text.last());
        assert(rest + seq![text.last()] =~= text);
    } else {
        assert(visible_text(text) =~= text);
    }
}

} // verus!
