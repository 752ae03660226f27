//! What holds of every search.
use vstd::prelude::*;
use vstd::utf8::encode_utf8;

use super::arguments::OptionsModel;
use super::lines::{display_text, normalized_line, source_lines};
use super::matcher::{alternatives, escaped, pattern_language};
use super::results::{
    DisplayModel, EntryModel, ScanModel, entry_index, entry_placed, scanned, source_search,
};
use crate::archive::model::VerifiedSource;
use crate::reducers::filter::{AnsiState, ansi_run};

verus! {

/// The state of the terminal after some lines.
pub open spec fn ansi_after(lines: Seq<Seq<u8>>) -> AnsiState
    decreases lines.len(),
{
    if lines.len() == 0 {
        AnsiState::Ground
    } else {
        ansi_run(ansi_after(lines.drop_last()), lines.last()).0
    }
}

/// The text of the line with a number; the first line has the number one.
pub open spec fn line_text(lines: Seq<Seq<u8>>, number: int) -> Seq<char> {
    normalized_line(lines[number - 1], ansi_after(lines.take(number - 1)))->Ok_0
}

/// A shown line is the line of the source that has its number, and it is marked as selected only
/// if the search selects it.
pub open spec fn is_shown_line(
    lines: Seq<Seq<u8>>,
    options: OptionsModel,
    entry: EntryModel,
) -> bool {
    let text = line_text(lines, entry.number as int);
    &&& 1 <= entry.number <= lines.len()
    &&& entry.text == display_text(text)
    &&& entry.selected ==> options.selects(encode_utf8(text))
}

/// The numbers of the lines ascend.
pub open spec fn are_ordered(entries: Seq<EntryModel>) -> bool {
    forall|i: int, j: int|
        0 <= i < j < entries.len() ==> (#[trigger] entries[i]).number < (
        #[trigger] entries[j]).number
}

/// Some lines show the line with this number as a selected one.
pub open spec fn marks(entries: Seq<EntryModel>, number: u64) -> bool {
    exists|i: int|
        0 <= i < entries.len() && (#[trigger] entries[i]).number == number && entries[i].selected
}

/// The shown lines are lines of the source, in their order, and few enough.
pub open spec fn shows_lines(
    lines: Seq<Seq<u8>>,
    options: OptionsModel,
    entries: Seq<EntryModel>,
) -> bool {
    &&& forall|i: int|
        0 <= i < entries.len() ==> is_shown_line(lines, options, #[trigger] entries[i])
    &&& are_ordered(entries)
    &&& entries.len() <= 2_048
}

/// The lines that were selected to be shown are shown as selected ones, in their order.
pub open spec fn shows_selected(
    lines: Seq<Seq<u8>>,
    entries: Seq<EntryModel>,
    displayed: Seq<u64>,
) -> bool {
    &&& forall|i: int|
        0 <= i < displayed.len() ==> 1 <= #[trigger] displayed[i] <= lines.len() && marks(
            entries,
            displayed[i],
        )
    &&& forall|i: int, j: int|
        0 <= i < j < displayed.len() ==> #[trigger] displayed[i] < #[trigger] displayed[j]
}

/// The number of the lines that the search selects.
pub open spec fn selected_lines(lines: Seq<Seq<u8>>, options: OptionsModel) -> nat
    decreases lines.len(),
{
    if lines.len() == 0 {
        0
    } else {
        selected_lines(lines.drop_last(), options) + if options.selects(
            encode_utf8(line_text(lines, lines.len() as int)),
        ) {
            1nat
        } else {
            0nat
        }
    }
}

spec fn is_state_of(lines: Seq<Seq<u8>>, options: OptionsModel, state: ScanModel) -> bool {
    &&& state.total_lines == lines.len()
    &&& state.ansi == ansi_after(lines)
    &&& state.total_selected == selected_lines(lines, options)
    &&& selected_lines(lines, options) <= lines.len()
    &&& state.displayed.len() <= 32
    &&& state.displayed.len() <= options.max_results
    &&& state.displayed.len() <= state.total_selected
    &&& state.display.bytes <= 7_168
    &&& shows_lines(lines, options, state.display.lines)
    &&& shows_selected(lines, state.display.lines, state.displayed)
    &&& forall|i: int|
        0 <= i < state.previous.len() ==> 1 <= (#[trigger] state.previous[i]).0 <= lines.len()
            && state.previous[i].1 == line_text(lines, state.previous[i].0 as int)
}

proof fn lemma_index_is_of_number(entries: Seq<EntryModel>, number: u64, from: int)
    requires
        0 <= from,
    ensures
        match entry_index(entries, number, from) {
            Some(index) => from <= index < entries.len() && entries[index].number == number,
            None => forall|i: int|
                from <= i < entries.len() ==> (#[trigger] entries[i]).number != number,
        },
    decreases entries.len() - from,
{
    if from < entries.len() && entries[from].number != number {
        lemma_index_is_of_number(entries, number, from + 1);
    }
}

proof fn lemma_placed_in_order(entries: Seq<EntryModel>, entry: EntryModel)
    requires
        are_ordered(entries),
        forall|i: int| 0 <= i < entries.len() ==> (#[trigger] entries[i]).number != entry.number,
    ensures
        are_ordered(entry_placed(entries, entry)),
        entry_placed(entries, entry).len() == entries.len() + 1,
        forall|i: int|
            0 <= i <= entries.len() ==> #[trigger] entry_placed(entries, entry)[i] == entry
                || entries.contains(entry_placed(entries, entry)[i]),
        entry_placed(entries, entry).contains(entry),
        forall|i: int|
            0 <= i < entries.len() ==> entry_placed(entries, entry).contains(
                #[trigger] entries[i],
            ),
    decreases entries.len(),
{
    let placed = entry_placed(entries, entry);
    if entries.len() == 0 || entries.last().number < entry.number {
        assert(placed[entries.len() as int] == entry);
        assert forall|i: int| 0 <= i < entries.len() implies placed.contains(
            #[trigger] entries[i],
        ) by {
            assert(placed[i] == entries[i]);
        }
        assert forall|i: int| 0 <= i <= entries.len() implies #[trigger] placed[i] == entry
            || entries.contains(placed[i]) by {
            if i < entries.len() {
                assert(placed[i] == entries[i]);
            }
        }
    } else {
        let rest = entries.drop_last();
        assert forall|i: int| 0 <= i < rest.len() implies (#[trigger] rest[i]).number
            != entry.number by {
            assert(rest[i] == entries[i]);
        }
        lemma_placed_in_order(rest, entry);
        let before = entry_placed(rest, entry);
        let last = entries.last();
        assert(placed == before.push(last));
        assert(entries[entries.len() - 1] == last);
        assert forall|i: int| 0 <= i < before.len() implies (#[trigger] before[i]).number
            < last.number by {
            if before[i] != entry {
                let j = choose|j: int| 0 <= j < rest.len() && rest[j] == before[i];
                assert(entries[j] == rest[j]);
            }
        }
        assert forall|i: int| 0 <= i <= entries.len() implies #[trigger] placed[i] == entry
            || entries.contains(placed[i]) by {
            if i < before.len() {
                assert(placed[i] == before[i]);
                if before[i] != entry {
                    let j = choose|j: int| 0 <= j < rest.len() && rest[j] == before[i];
                    assert(entries[j] == rest[j]);
                }
            } else {
                assert(placed[i] == last);
            }
        }
        let at = choose|at: int| 0 <= at < before.len() && before[at] == entry;
        assert(placed[at] == entry);
        assert forall|i: int| 0 <= i < entries.len() implies placed.contains(
            #[trigger] entries[i],
        ) by {
            if i < rest.len() {
                assert(rest[i] == entries[i]);
                let j = choose|j: int| 0 <= j < before.len() && before[j] == rest[i];
                assert(placed[j] == entries[i]);
            } else {
                assert(placed[before.len() as int] == entries[i]);
            }
        }
    }
}

proof fn lemma_offer_keeps_lines(
    lines: Seq<Seq<u8>>,
    options: OptionsModel,
    display: DisplayModel,
    number: u64,
    text: Seq<char>,
    selected: bool,
)
    requires
        shows_lines(lines, options, display.lines),
        display.bytes <= 7_168,
        1 <= number <= lines.len(),
        text == line_text(lines, number as int),
        selected ==> options.selects(encode_utf8(text)),
    ensures
        shows_lines(lines, options, display.offered(number, text, selected).lines),
        display.offered(number, text, selected).bytes <= 7_168,
        forall|earlier: u64|
            marks(display.lines, earlier) ==> #[trigger] marks(
                display.offered(number, text, selected).lines,
                earlier,
            ),
        selected && display.accepts(number, text) ==> marks(
            display.offered(number, text, selected).lines,
            number,
        ),
{
    let entries = display.lines;
    let after = display.offered(number, text, selected).lines;
    lemma_index_is_of_number(entries, number, 0);
    match entry_index(entries, number, 0) {
        Some(index) => {
            assert forall|i: int| 0 <= i < after.len() implies is_shown_line(
                lines,
                options,
                #[trigger] after[i],
            ) by {
                assert(is_shown_line(lines, options, entries[i]));
            }
            assert forall|i: int, j: int| 0 <= i < j < after.len() implies (
            #[trigger] after[i]).number < (#[trigger] after[j]).number by {
                assert(entries[i].number < entries[j].number);
            }
            assert forall|earlier: u64| marks(entries, earlier) implies #[trigger] marks(
                after,
                earlier,
            ) by {
                let i = choose|i: int|
                    0 <= i < entries.len() && (#[trigger] entries[i]).number == earlier
                        && entries[i].selected;
                assert(after[i].number == earlier && after[i].selected);
            }
            if selected {
                assert(after[index].number == number && after[index].selected);
            }
        },
        None => {
            if display.has_room(text) {
                let entry = EntryModel { number, text: display_text(text), selected };
                lemma_placed_in_order(entries, entry);
                assert forall|i: int| 0 <= i < after.len() implies is_shown_line(
                    lines,
                    options,
                    #[trigger] after[i],
                ) by {
                    if after[i] != entry {
                        let j = choose|j: int| 0 <= j < entries.len() && entries[j] == after[i];
                        assert(is_shown_line(lines, options, entries[j]));
                    }
                }
                assert forall|earlier: u64| marks(entries, earlier) implies #[trigger] marks(
                    after,
                    earlier,
                ) by {
                    let i = choose|i: int|
                        0 <= i < entries.len() && (#[trigger] entries[i]).number == earlier
                            && entries[i].selected;
                    let j = choose|j: int| 0 <= j < after.len() && after[j] == entries[i];
                    assert(after[j].number == earlier && after[j].selected);
                }
                let at = choose|at: int| 0 <= at < after.len() && after[at] == entry;
                assert(after[at].number == number);
            }
        },
    }
}

proof fn lemma_context_keeps_lines(
    lines: Seq<Seq<u8>>,
    options: OptionsModel,
    display: DisplayModel,
    context: Seq<(u64, Seq<char>)>,
    count: nat,
)
    requires
        count <= context.len(),
        shows_lines(lines, options, display.lines),
        display.bytes <= 7_168,
        forall|i: int|
            0 <= i < context.len() ==> 1 <= (#[trigger] context[i]).0 <= lines.len()
                && context[i].1 == line_text(lines, context[i].0 as int),
    ensures
        shows_lines(lines, options, display.with_context(context, count).lines),
        display.with_context(context, count).bytes <= 7_168,
        forall|earlier: u64|
            marks(display.lines, earlier) ==> #[trigger] marks(
                display.with_context(context, count).lines,
                earlier,
            ),
    decreases count,
{
    if count > 0 {
        let before = display.with_context(context, (count - 1) as nat);
        lemma_context_keeps_lines(lines, options, display, context, (count - 1) as nat);
        lemma_offer_keeps_lines(
            lines,
            options,
            before,
            context[count - 1].0,
            context[count - 1].1,
            false,
        );
        assert forall|earlier: u64| marks(display.lines, earlier) implies #[trigger] marks(
            display.with_context(context, count).lines,
            earlier,
        ) by {
            assert(marks(before.lines, earlier));
        }
    }
}

proof fn lemma_text_stays(lines: Seq<Seq<u8>>, raw: Seq<u8>, number: int)
    requires
        1 <= number <= lines.len(),
    ensures
        line_text(lines.push(raw), number) == line_text(lines, number),
{
    assert(lines.push(raw).take(number - 1) =~= lines.take(number - 1));
}

proof fn lemma_new_text(lines: Seq<Seq<u8>>, raw: Seq<u8>)
    ensures
        ansi_after(lines.push(raw)) == ansi_run(ansi_after(lines), raw).0,
        line_text(lines.push(raw), lines.len() as int + 1) == normalized_line(
            raw,
            ansi_after(lines),
        )->Ok_0,
{
    assert(lines.push(raw).drop_last() =~= lines);
    assert(lines.push(raw).take(lines.len() as int) =~= lines);
}

proof fn lemma_state_stays(
    lines: Seq<Seq<u8>>,
    options: OptionsModel,
    state: ScanModel,
    raw: Seq<u8>,
)
    requires
        is_state_of(lines, options, state),
    ensures
        shows_lines(lines.push(raw), options, state.display.lines),
        shows_selected(lines.push(raw), state.display.lines, state.displayed),
        forall|i: int|
            0 <= i < state.previous.len() ==> 1 <= (#[trigger] state.previous[i]).0 <= lines.len()
                && state.previous[i].1 == line_text(lines.push(raw), state.previous[i].0 as int),
{
    let longer = lines.push(raw);
    assert forall|i: int| 0 <= i < state.display.lines.len() implies is_shown_line(
        longer,
        options,
        #[trigger] state.display.lines[i],
    ) by {
        assert(is_shown_line(lines, options, state.display.lines[i]));
        lemma_text_stays(lines, raw, state.display.lines[i].number as int);
    }
    assert forall|i: int| 0 <= i < state.displayed.len() implies 1 <= #[trigger] state.displayed[i]
        <= longer.len() && marks(state.display.lines, state.displayed[i]) by {}
    assert forall|i: int| 0 <= i < state.previous.len() implies 1 <= (
    #[trigger] state.previous[i]).0 <= lines.len() && state.previous[i].1 == line_text(
        longer,
        state.previous[i].0 as int,
    ) by {
        lemma_text_stays(lines, raw, state.previous[i].0 as int);
    }
}

proof fn lemma_next_line(
    lines: Seq<Seq<u8>>,
    options: OptionsModel,
    state: ScanModel,
    raw: Seq<u8>,
)
    requires
        is_state_of(lines, options, state),
        lines.len() < u64::MAX,
        state.with_line(raw, options) is Ok,
    ensures
        is_state_of(lines.push(raw), options, state.with_line(raw, options)->Ok_0),
{
    let longer = lines.push(raw);
    let number = longer.len() as u64;
    let text = normalized_line(raw, state.ansi)->Ok_0;
    lemma_new_text(lines, raw);
    lemma_state_stays(lines, options, state, raw);
    assert(longer.drop_last() =~= lines);
    assert(text == line_text(longer, number as int));
    let moved = ScanModel {
        total_lines: number,
        ansi: ansi_run(state.ansi, raw).0,
        ..state
    };
    lemma_offer_keeps_lines(longer, options, moved.display, number, text, false);
    let context = moved.with_trailing_context(text);
    assert(shows_selected(longer, context.display.lines, context.displayed)) by {
        assert forall|i: int| 0 <= i < context.displayed.len() implies marks(
            context.display.lines,
            #[trigger] context.displayed[i],
        ) by {
            assert(marks(moved.display.lines, moved.displayed[i]));
        }
    }
    let selects = options.selects(encode_utf8(text));
    let chosen = if selects {
        context.with_selected(text, options)
    } else {
        context
    };
    if selects {
        let first = context.display.offered(number, text, true);
        lemma_offer_keeps_lines(longer, options, context.display, number, text, true);
        lemma_context_keeps_lines(
            longer,
            options,
            first,
            context.previous,
            context.previous.len(),
        );
        assert(shows_selected(longer, chosen.display.lines, chosen.displayed)) by {
            assert forall|i: int| 0 <= i < chosen.displayed.len() implies 1
                <= #[trigger] chosen.displayed[i] <= longer.len() && marks(
                chosen.display.lines,
                chosen.displayed[i],
            ) by {
                if i < context.displayed.len() {
                    assert(chosen.displayed[i] == context.displayed[i]);
                    assert(marks(context.display.lines, context.displayed[i]));
                    assert(marks(first.lines, context.displayed[i]));
                } else {
                    assert(chosen.displayed[i] == number);
                    assert(marks(first.lines, number));
                }
            }
            assert forall|i: int, j: int| 0 <= i < j < chosen.displayed.len() implies
                #[trigger] chosen.displayed[i] < #[trigger] chosen.displayed[j] by {
                assert(chosen.displayed[i] == context.displayed[i]);
                assert(1 <= state.displayed[i] <= lines.len());
                if j < context.displayed.len() {
                    assert(chosen.displayed[j] == context.displayed[j]);
                }
            }
        }
    }
    let next = chosen.with_leading_context(text, options.before);
    assert forall|i: int| 0 <= i < next.previous.len() implies 1 <= (#[trigger] next.previous[i]).0
        <= longer.len() && next.previous[i].1 == line_text(longer, next.previous[i].0 as int) by {
        if options.before > 0 && i + 1 == next.previous.len() {
            assert(next.previous[i] == (number, text));
        } else if options.before > 0 && chosen.previous.len() == options.before {
            assert(next.previous[i] == state.previous[i + 1]);
        } else {
            assert(next.previous[i] == state.previous[i]);
        }
    }
}

proof fn lemma_scan_keeps_state(lines: Seq<Seq<u8>>, options: OptionsModel)
    requires
        lines.len() < u64::MAX,
        scanned(lines, options) is Ok,
    ensures
        is_state_of(lines, options, scanned(lines, options)->Ok_0),
    decreases lines.len(),
{
    if lines.len() > 0 {
        lemma_scan_keeps_state(lines.drop_last(), options);
        lemma_next_line(
            lines.drop_last(),
            options,
            scanned(lines.drop_last(), options)->Ok_0,
            lines.last(),
        );
        assert(lines.drop_last().push(lines.last()) =~= lines);
    }
}

/// A search counts exactly the lines that it selects. It shows lines of the source under their own
/// numbers and in their order, and marks only selected ones. It shows no more selected lines than
/// were asked for, at most 32, and at most 2048 lines in all.
pub proof fn lemma_search_shows_the_source(source: VerifiedSource, options: OptionsModel)
    requires
        source_search(source, options) is Ok,
        source_lines(source.body@).len() < u64::MAX,
    ensures
        ({
            let lines = source_lines(source.body@);
            let found = source_search(source, options)->Ok_0;
            &&& found.total_lines == lines.len()
            &&& found.total_selected == selected_lines(lines, options)
            &&& found.displayed_selected.len() <= found.total_selected <= found.total_lines
            &&& found.displayed_selected.len() <= options.max_results
            &&& found.displayed_selected.len() <= 32
            &&& shows_lines(lines, options, found.lines)
            &&& shows_selected(lines, found.lines, found.displayed_selected)
        }),
{
    lemma_scan_keeps_state(source_lines(source.body@), options);
}

/// A pattern of the search has a match in the line with a number.
pub open spec fn has_match(lines: Seq<Seq<u8>>, options: OptionsModel, number: int) -> bool {
    pattern_language(options.pattern(), options.ignore_case).contains(
        encode_utf8(line_text(lines, number)),
    )
}

/// How many of the first lines have a match.
pub open spec fn match_count(lines: Seq<Seq<u8>>, options: OptionsModel, count: nat) -> nat
    decreases count,
{
    if count == 0 {
        0
    } else {
        match_count(lines, options, (count - 1) as nat) + if has_match(
            lines,
            options,
            count as int,
        ) {
            1nat
        } else {
            0nat
        }
    }
}

proof fn lemma_match_count_stays(
    lines: Seq<Seq<u8>>,
    raw: Seq<u8>,
    options: OptionsModel,
    count: nat,
)
    requires
        count <= lines.len(),
    ensures
        match_count(lines.push(raw), options, count) == match_count(lines, options, count),
    decreases count,
{
    if count > 0 {
        lemma_match_count_stays(lines, raw, options, (count - 1) as nat);
        lemma_text_stays(lines, raw, count as int);
    }
}

proof fn lemma_selected_are_matches(lines: Seq<Seq<u8>>, options: OptionsModel)
    ensures
        match_count(lines, options, lines.len()) <= lines.len(),
        selected_lines(lines, options) == if options.invert {
            (lines.len() - match_count(lines, options, lines.len())) as nat
        } else {
            match_count(lines, options, lines.len())
        },
    decreases lines.len(),
{
    if lines.len() > 0 {
        let rest = lines.drop_last();
        lemma_selected_are_matches(rest, options);
        assert(rest.push(lines.last()) =~= lines);
        lemma_match_count_stays(rest, lines.last(), options, rest.len());
    }
}

/// Without `-v`, a search counts the lines in which a pattern has a match, and with it the others.
pub proof fn lemma_search_counts_matches(source: VerifiedSource, options: OptionsModel)
    requires
        source_search(source, options) is Ok,
        source_lines(source.body@).len() < u64::MAX,
    ensures
        ({
            let lines = source_lines(source.body@);
            let matching = match_count(lines, options, lines.len());
            let found = source_search(source, options)->Ok_0;
            &&& !options.invert ==> found.total_selected == matching
            &&& options.invert ==> found.total_selected == lines.len() - matching
        }),
{
    lemma_search_shows_the_source(source, options);
    lemma_selected_are_matches(source_lines(source.body@), options);
}

proof fn lemma_invert_keeps_matches(
    lines: Seq<Seq<u8>>,
    options: OptionsModel,
    inverted: OptionsModel,
    count: nat,
)
    requires
        inverted == (OptionsModel { invert: inverted.invert, ..options }),
    ensures
        match_count(lines, options, count) == match_count(lines, inverted, count),
    decreases count,
{
    assert(options.pattern() == inverted.pattern());
    if count > 0 {
        lemma_invert_keeps_matches(lines, options, inverted, (count - 1) as nat);
    }
}

/// Of two searches that differ only in `-v`, every line is selected by exactly one.
pub proof fn lemma_invert_selects_the_other_lines(source: VerifiedSource, options: OptionsModel)
    requires
        !options.invert,
        source_search(source, options) is Ok,
        source_search(source, OptionsModel { invert: true, ..options }) is Ok,
        source_lines(source.body@).len() < u64::MAX,
    ensures
        source_search(source, options)->Ok_0.total_selected + source_search(
            source,
            OptionsModel { invert: true, ..options },
        )->Ok_0.total_selected == source_search(source, options)->Ok_0.total_lines,
        source_search(source, options)->Ok_0.total_lines == source_lines(source.body@).len(),
{
    let inverted = OptionsModel { invert: true, ..options };
    let lines = source_lines(source.body@);
    lemma_search_counts_matches(source, options);
    lemma_search_counts_matches(source, inverted);
    lemma_invert_keeps_matches(lines, options, inverted, lines.len());
    lemma_search_shows_the_source(source, options);
    lemma_selected_are_matches(lines, options);
}

/// A line with this number is shown.
pub open spec fn is_shown(entries: Seq<EntryModel>, number: int) -> bool {
    exists|i: int| 0 <= i < entries.len() && (#[trigger] entries[i]).number == number
}

/// The room that a line takes where it is shown.
pub open spec fn line_size(lines: Seq<Seq<u8>>, number: int) -> nat {
    encode_utf8(display_text(line_text(lines, number))).len()
}

/// The room that the first lines take.
pub open spec fn size_of_lines(lines: Seq<Seq<u8>>, count: nat) -> nat
    decreases count,
{
    if count == 0 {
        0
    } else {
        size_of_lines(lines, (count - 1) as nat) + line_size(lines, count as int)
    }
}

/// There is room for all lines, so that none is left out for want of it.
pub open spec fn all_fit(lines: Seq<Seq<u8>>) -> bool {
    lines.len() <= 2_048 && size_of_lines(lines, lines.len()) <= 7_168
}

spec fn shown_size(lines: Seq<Seq<u8>>, entries: Seq<EntryModel>, count: nat) -> nat
    decreases count,
{
    if count == 0 {
        0
    } else {
        shown_size(lines, entries, (count - 1) as nat) + if is_shown(entries, count as int) {
            line_size(lines, count as int)
        } else {
            0
        }
    }
}

proof fn lemma_room_for_line(
    lines: Seq<Seq<u8>>,
    entries: Seq<EntryModel>,
    number: int,
    count: nat,
)
    requires
        !is_shown(entries, number),
        1 <= number,
    ensures
        shown_size(lines, entries, count) <= size_of_lines(lines, count),
        number <= count ==> shown_size(lines, entries, count) + line_size(lines, number)
            <= size_of_lines(lines, count),
    decreases count,
{
    if count > 0 {
        lemma_room_for_line(lines, entries, number, (count - 1) as nat);
    }
}

proof fn lemma_size_with_line(
    lines: Seq<Seq<u8>>,
    entries: Seq<EntryModel>,
    after: Seq<EntryModel>,
    number: int,
    count: nat,
)
    requires
        !is_shown(entries, number),
        1 <= number,
        forall|k: int| #[trigger] is_shown(after, k) <==> is_shown(entries, k) || k == number,
    ensures
        shown_size(lines, after, count) == shown_size(lines, entries, count) + if number <= count {
            line_size(lines, number)
        } else {
            0
        },
    decreases count,
{
    if count > 0 {
        lemma_size_with_line(lines, entries, after, number, (count - 1) as nat);
        assert(is_shown(after, count as int) <==> is_shown(entries, count as int) || count
            == number);
    }
}

proof fn lemma_same_size(
    lines: Seq<Seq<u8>>,
    entries: Seq<EntryModel>,
    after: Seq<EntryModel>,
    count: nat,
)
    requires
        forall|k: int| #[trigger] is_shown(after, k) <==> is_shown(entries, k),
    ensures
        shown_size(lines, after, count) == shown_size(lines, entries, count),
    decreases count,
{
    if count > 0 {
        lemma_same_size(lines, entries, after, (count - 1) as nat);
        assert(is_shown(after, count as int) <==> is_shown(entries, count as int));
    }
}

proof fn lemma_few_entries(entries: Seq<EntryModel>, place: int)
    requires
        are_ordered(entries),
        forall|i: int| 0 <= i < entries.len() ==> 1 <= (#[trigger] entries[i]).number,
        0 <= place < entries.len(),
    ensures
        place + 1 <= entries[place].number,
    decreases place,
{
    if place > 0 {
        lemma_few_entries(entries, place - 1);
        assert(entries[place - 1].number < entries[place].number);
    } else {
        assert(1 <= entries[0].number);
    }
}

proof fn lemma_offer_shows(
    lines: Seq<Seq<u8>>,
    options: OptionsModel,
    display: DisplayModel,
    number: u64,
    text: Seq<char>,
    selected: bool,
)
    requires
        all_fit(lines),
        shows_lines(lines, options, display.lines),
        display.bytes == shown_size(lines, display.lines, lines.len()),
        1 <= number <= lines.len(),
        text == line_text(lines, number as int),
        selected ==> options.selects(encode_utf8(text)),
    ensures
        display.accepts(number, text),
        shows_lines(lines, options, display.offered(number, text, selected).lines),
        display.offered(number, text, selected).bytes == shown_size(
            lines,
            display.offered(number, text, selected).lines,
            lines.len(),
        ),
        forall|k: int| #[trigger]
            is_shown(display.offered(number, text, selected).lines, k) <==> is_shown(
                display.lines,
                k,
            ) || k == number,
{
    let entries = display.lines;
    let after = display.offered(number, text, selected).lines;
    lemma_index_is_of_number(entries, number, 0);
    match entry_index(entries, number, 0) {
        Some(index) => {
            assert(is_shown(entries, number as int));
            assert forall|k: int| #[trigger] is_shown(after, k) <==> is_shown(entries, k) || k
                == number by {
                if is_shown(after, k) {
                    let i = choose|i: int|
                        0 <= i < after.len() && (#[trigger] after[i]).number == k;
                    assert(entries[i].number == k);
                }
                if is_shown(entries, k) {
                    let i = choose|i: int|
                        0 <= i < entries.len() && (#[trigger] entries[i]).number == k;
                    assert(after[i].number == k);
                }
            }
            assert forall|k: int| #[trigger] is_shown(after, k) <==> is_shown(entries, k) by {}
            lemma_same_size(lines, entries, after, lines.len());
            lemma_shown_size_bounded(lines, entries, lines.len());
        },
        None => {
            let entry = EntryModel { number, text: display_text(text), selected };
            assert(!is_shown(entries, number as int));
            lemma_room_for_line(lines, entries, number as int, lines.len());
            lemma_placed_in_order(entries, entry);
            let placed = entry_placed(entries, entry);
            assert forall|i: int| 0 <= i < placed.len() implies 1 <= (#[trigger] placed[i]).number
                <= lines.len() by {
                if placed[i] != entry {
                    let j = choose|j: int| 0 <= j < entries.len() && entries[j] == placed[i];
                    assert(is_shown_line(lines, options, entries[j]));
                }
            }
            lemma_few_entries(placed, placed.len() - 1);
            assert(placed[placed.len() - 1].number <= lines.len());
            assert(display.has_room(text));
            assert(after == placed);
            assert forall|k: int| #[trigger] is_shown(after, k) <==> is_shown(entries, k) || k
                == number by {
                if is_shown(after, k) {
                    let i = choose|i: int|
                        0 <= i < after.len() && (#[trigger] after[i]).number == k;
                    if after[i] != entry {
                        let j = choose|j: int| 0 <= j < entries.len() && entries[j] == after[i];
                        assert(entries[j].number == k);
                    }
                }
                if is_shown(entries, k) {
                    let i = choose|i: int|
                        0 <= i < entries.len() && (#[trigger] entries[i]).number == k;
                    let j = choose|j: int| 0 <= j < after.len() && after[j] == entries[i];
                    assert(after[j].number == k);
                }
                if k == number {
                    let j = choose|j: int| 0 <= j < after.len() && after[j] == entry;
                    assert(after[j].number == k);
                }
            }
            lemma_size_with_line(lines, entries, after, number as int, lines.len());
        },
    }
    lemma_offer_keeps_lines(lines, options, display, number, text, selected);
}

proof fn lemma_shown_size_bounded(lines: Seq<Seq<u8>>, entries: Seq<EntryModel>, count: nat)
    ensures
        shown_size(lines, entries, count) <= size_of_lines(lines, count),
    decreases count,
{
    if count > 0 {
        lemma_shown_size_bounded(lines, entries, (count - 1) as nat);
    }
}

spec fn is_context_line(context: Seq<(u64, Seq<char>)>, count: nat, number: int) -> bool {
    exists|i: int| 0 <= i < count && (#[trigger] context[i]).0 == number
}

proof fn lemma_context_shows(
    lines: Seq<Seq<u8>>,
    options: OptionsModel,
    display: DisplayModel,
    context: Seq<(u64, Seq<char>)>,
    count: nat,
)
    requires
        all_fit(lines),
        count <= context.len(),
        shows_lines(lines, options, display.lines),
        display.bytes == shown_size(lines, display.lines, lines.len()),
        forall|i: int|
            0 <= i < context.len() ==> 1 <= (#[trigger] context[i]).0 <= lines.len()
                && context[i].1 == line_text(lines, context[i].0 as int),
    ensures
        shows_lines(lines, options, display.with_context(context, count).lines),
        display.with_context(context, count).bytes == shown_size(
            lines,
            display.with_context(context, count).lines,
            lines.len(),
        ),
        forall|k: int| #[trigger]
            is_shown(display.with_context(context, count).lines, k) <==> is_shown(display.lines, k)
                || is_context_line(context, count, k),
    decreases count,
{
    if count > 0 {
        let before = display.with_context(context, (count - 1) as nat);
        lemma_context_shows(lines, options, display, context, (count - 1) as nat);
        let line = context[count - 1];
        lemma_offer_shows(lines, options, before, line.0, line.1, false);
        let after = display.with_context(context, count);
        assert forall|k: int| #[trigger] is_shown(after.lines, k) <==> is_shown(display.lines, k)
            || is_context_line(context, count, k) by {
            assert(is_shown(after.lines, k) <==> is_shown(before.lines, k) || k == line.0);
            if is_context_line(context, (count - 1) as nat, k) {
                let i = choose|i: int| 0 <= i < count - 1 && (#[trigger] context[i]).0 == k;
                assert(is_context_line(context, count, k));
            }
            if is_context_line(context, count, k) && k != line.0 {
                let i = choose|i: int| 0 <= i < count && (#[trigger] context[i]).0 == k;
                assert(is_context_line(context, (count - 1) as nat, k));
            }
        }
    }
}

/// The line is one of the context of a shown match, or is that match.
pub open spec fn is_near(displayed: Seq<u64>, options: OptionsModel, number: int) -> bool {
    exists|i: int|
        0 <= i < displayed.len() && #[trigger] displayed[i] - options.before <= number
            && number <= displayed[i] + options.after
}

/// How many selected lines a search shows at most.
pub open spec fn shown_limit(options: OptionsModel) -> nat {
    if options.max_results < 32 {
        options.max_results
    } else {
        32
    }
}

spec fn knows_previous(count: nat, options: OptionsModel, state: ScanModel) -> bool {
    &&& state.previous.len() == if options.before < count {
        options.before
    } else {
        count
    }
    &&& forall|i: int|
        0 <= i < state.previous.len() ==> (#[trigger] state.previous[i]).0 == count
            - state.previous.len() + 1 + i
}

spec fn shows_near(count: nat, options: OptionsModel, state: ScanModel) -> bool {
    &&& forall|k: int|
        1 <= k <= count ==> (#[trigger] is_shown(state.display.lines, k) <==> is_near(
            state.displayed,
            options,
            k,
        ))
    &&& state.after_remaining > 0 ==> state.displayed.len() > 0 && state.displayed.last()
        + options.after == count + state.after_remaining
    &&& state.after_remaining == 0 ==> (state.displayed.len() == 0 || state.displayed.last()
        + options.after <= count)
}

spec fn shows_matches(lines: Seq<Seq<u8>>, options: OptionsModel, displayed: Seq<u64>) -> bool {
    &&& displayed.len() <= shown_limit(options)
    &&& forall|k: int|
        1 <= k <= lines.len() && #[trigger] has_match(lines, options, k) != options.invert
            ==> displayed.contains(k as u64) || (displayed.len() == shown_limit(options)
            && displayed.last() < k)
    &&& forall|i: int|
        0 <= i < displayed.len() ==> has_match(lines, options, #[trigger] displayed[i] as int)
            != options.invert
}

spec fn shows_context(lines: Seq<Seq<u8>>, options: OptionsModel, state: ScanModel) -> bool {
    &&& state.display.bytes == shown_size(lines, state.display.lines, lines.len())
    &&& knows_previous(lines.len(), options, state)
    &&& shows_near(lines.len(), options, state)
    &&& shows_matches(lines, options, state.displayed)
}

proof fn lemma_size_stays(
    lines: Seq<Seq<u8>>,
    raw: Seq<u8>,
    entries: Seq<EntryModel>,
    count: nat,
)
    requires
        count <= lines.len(),
    ensures
        shown_size(lines.push(raw), entries, count) == shown_size(lines, entries, count),
        size_of_lines(lines.push(raw), count) == size_of_lines(lines, count),
    decreases count,
{
    if count > 0 {
        lemma_size_stays(lines, raw, entries, (count - 1) as nat);
        lemma_text_stays(lines, raw, count as int);
    }
}

proof fn lemma_next_matches(
    lines: Seq<Seq<u8>>,
    options: OptionsModel,
    displayed: Seq<u64>,
    raw: Seq<u8>,
)
    requires
        shows_matches(lines, options, displayed),
        options.max_results > 0,
        lines.len() < u64::MAX,
        forall|i: int| 0 <= i < displayed.len() ==> 1 <= #[trigger] displayed[i] <= lines.len(),
    ensures
        ({
            let number = (lines.len() + 1) as u64;
            let longer = lines.push(raw);
            let selects = has_match(longer, options, number as int) != options.invert;
            shows_matches(
                longer,
                options,
                if selects && displayed.len() < shown_limit(options) {
                    displayed.push(number)
                } else {
                    displayed
                },
            )
        }),
{
    let number = (lines.len() + 1) as u64;
    let longer = lines.push(raw);
    let selects = has_match(longer, options, number as int) != options.invert;
    let taken = selects && displayed.len() < shown_limit(options);
    let next = if taken {
        displayed.push(number)
    } else {
        displayed
    };
    assert forall|k: int| 1 <= k <= lines.len() implies has_match(longer, options, k)
        == #[trigger] has_match(lines, options, k) by {
        lemma_text_stays(lines, raw, k);
    }
    assert forall|k: int|
        1 <= k <= longer.len() && #[trigger] has_match(longer, options, k)
            != options.invert implies next.contains(k as u64) || (next.len() == shown_limit(options)
        && next.last() < k) by {
        if k <= lines.len() {
            assert(has_match(lines, options, k) != options.invert);
            if displayed.contains(k as u64) {
                let i = choose|i: int| 0 <= i < displayed.len() && displayed[i] == k as u64;
                assert(next[i] == k as u64);
            }
        } else if taken {
            assert(next[next.len() - 1] == k as u64);
        } else {
            assert(displayed[displayed.len() - 1] <= lines.len());
        }
    }
    assert forall|i: int| 0 <= i < next.len() implies has_match(
        longer,
        options,
        #[trigger] next[i] as int,
    ) != options.invert by {
        if i < displayed.len() {
            assert(next[i] == displayed[i]);
            assert(has_match(lines, options, displayed[i] as int) != options.invert);
        }
    }
}

proof fn lemma_next_previous(count: nat, options: OptionsModel, state: ScanModel, text: Seq<char>)
    requires
        knows_previous(count, options, state),
        state.total_lines == count + 1,
    ensures
        knows_previous(count + 1, options, state.with_leading_context(text, options.before)),
{
    let next = state.with_leading_context(text, options.before);
    assert forall|i: int| 0 <= i < next.previous.len() implies (#[trigger] next.previous[i]).0
        == count + 1 - next.previous.len() + 1 + i by {
        if options.before > 0 {
            if i + 1 == next.previous.len() {
                assert(next.previous[i] == (state.total_lines, text));
            } else if state.previous.len() == options.before {
                assert(next.previous[i] == state.previous[i + 1]);
            } else {
                assert(next.previous[i] == state.previous[i]);
            }
        }
    }
}

/// Which lines are near once one more line was taken as a match.
proof fn lemma_near_with_match(
    displayed: Seq<u64>,
    options: OptionsModel,
    number: u64,
    previous: Seq<(u64, Seq<char>)>,
    k: int,
)
    requires
        1 <= k <= number,
        previous.len() == if options.before < number - 1 {
            options.before
        } else {
            (number - 1) as nat
        },
        forall|i: int|
            0 <= i < previous.len() ==> (#[trigger] previous[i]).0 == number - previous.len() + i,
    ensures
        is_near(displayed.push(number), options, k) <==> is_near(displayed, options, k) || k
            == number || is_context_line(previous, previous.len(), k),
{
    let all = displayed.push(number);
    if is_near(displayed, options, k) {
        let i = choose|i: int|
            0 <= i < displayed.len() && #[trigger] displayed[i] - options.before <= k && k
                <= displayed[i] + options.after;
        assert(all[i] == displayed[i]);
    }
    let last = all.len() - 1;
    assert(all[last] == number);
    let start = number - previous.len();
    if is_context_line(previous, previous.len(), k) {
        let i = choose|i: int| 0 <= i < previous.len() && (#[trigger] previous[i]).0 == k;
        assert(all[last] - options.before <= k && k <= all[last] + options.after);
    }
    if k == number {
        assert(all[last] - options.before <= k && k <= all[last] + options.after);
    }
    if is_near(all, options, k) && !is_near(displayed, options, k) && k != number {
        let i = choose|i: int|
            0 <= i < all.len() && #[trigger] all[i] - options.before <= k && k <= all[i]
                + options.after;
        if i < last {
            assert(all[i] == displayed[i]);
        }
        assert(previous[k - start].0 == k);
    }
}

/// The next line is near an earlier match as long as lines after it are still to be shown.
proof fn lemma_near_next(
    count: nat,
    options: OptionsModel,
    state: ScanModel,
)
    requires
        shows_near(count, options, state),
        forall|i: int|
            0 <= i < state.displayed.len() ==> 1 <= #[trigger] state.displayed[i] <= count,
        forall|i: int, j: int|
            0 <= i < j < state.displayed.len() ==> #[trigger] state.displayed[i]
                < #[trigger] state.displayed[j],
    ensures
        is_near(state.displayed, options, count as int + 1) <==> state.after_remaining > 0,
{
    let k = count + 1;
    if is_near(state.displayed, options, k as int) {
        let i = choose|i: int|
            0 <= i < state.displayed.len() && #[trigger] state.displayed[i] - options.before <= k
                && k <= state.displayed[i] + options.after;
        let last = state.displayed.len() - 1;
        if i < last {
            assert(state.displayed[i] < state.displayed[last]);
        }
    }
    if state.after_remaining > 0 {
        let last = state.displayed.len() - 1;
        assert(1 <= state.displayed[last] <= count);
        assert(state.displayed[last] - options.before <= k && k <= state.displayed[last]
            + options.after);
    }
}

spec fn holds_room(lines: Seq<Seq<u8>>, options: OptionsModel, display: DisplayModel) -> bool {
    shows_lines(lines, options, display.lines) && display.bytes == shown_size(
        lines,
        display.lines,
        lines.len(),
    )
}

spec fn shows_all_near(
    count: nat,
    options: OptionsModel,
    display: DisplayModel,
    displayed: Seq<u64>,
) -> bool {
    forall|k: int|
        1 <= k <= count ==> (#[trigger] is_shown(display.lines, k) <==> is_near(
            displayed,
            options,
            k,
        ))
}

proof fn lemma_trailing_context_shown(
    lines: Seq<Seq<u8>>,
    options: OptionsModel,
    state: ScanModel,
    raw: Seq<u8>,
    text: Seq<char>,
)
    requires
        all_fit(lines.push(raw)),
        is_state_of(lines, options, state),
        shows_context(lines, options, state),
        text == line_text(lines.push(raw), lines.len() as int + 1),
    ensures
        ({
            let moved = ScanModel {
                total_lines: (lines.len() + 1) as u64,
                ansi: ansi_run(state.ansi, raw).0,
                ..state
            };
            let context = moved.with_trailing_context(text);
            &&& holds_room(lines.push(raw), options, context.display)
            &&& shows_all_near(lines.len() + 1, options, context.display, state.displayed)
        }),
{
    let longer = lines.push(raw);
    let number = longer.len() as u64;
    lemma_state_stays(lines, options, state, raw);
    lemma_size_stays(lines, raw, state.display.lines, lines.len());
    let moved = ScanModel { total_lines: number, ansi: ansi_run(state.ansi, raw).0, ..state };
    assert(!is_shown(moved.display.lines, number as int)) by {
        if is_shown(moved.display.lines, number as int) {
            let i = choose|i: int|
                0 <= i < moved.display.lines.len() && (#[trigger] moved.display.lines[i]).number
                    == number;
            assert(is_shown_line(lines, options, state.display.lines[i]));
        }
    }
    lemma_offer_shows(longer, options, moved.display, number, text, false);
    let context = moved.with_trailing_context(text);
    lemma_near_next(lines.len(), options, state);
    assert forall|k: int| 1 <= k <= longer.len() implies (#[trigger] is_shown(
        context.display.lines,
        k,
    ) <==> is_near(state.displayed, options, k)) by {
        if k <= lines.len() {
            assert(is_shown(state.display.lines, k) <==> is_near(state.displayed, options, k));
        }
    }
}

proof fn lemma_match_shown(
    lines: Seq<Seq<u8>>,
    options: OptionsModel,
    context: ScanModel,
    text: Seq<char>,
)
    requires
        all_fit(lines),
        lines.len() > 0,
        holds_room(lines, options, context.display),
        shows_all_near(lines.len(), options, context.display, context.displayed),
        knows_previous((lines.len() - 1) as nat, options, context),
        context.total_lines == lines.len(),
        text == line_text(lines, lines.len() as int),
        options.selects(encode_utf8(text)),
        context.displayed.len() < shown_limit(options),
        forall|i: int|
            0 <= i < context.previous.len() ==> 1 <= (#[trigger] context.previous[i]).0
                <= lines.len() && context.previous[i].1 == line_text(
                lines,
                context.previous[i].0 as int,
            ),
    ensures
        ({
            let chosen = context.with_selected(text, options);
            &&& holds_room(lines, options, chosen.display)
            &&& shows_all_near(lines.len(), options, chosen.display, chosen.displayed)
            &&& chosen.displayed == context.displayed.push(lines.len() as u64)
            &&& chosen.after_remaining == options.after
        }),
{
    let number = lines.len() as u64;
    let first = context.display.offered(number, text, true);
    lemma_offer_shows(lines, options, context.display, number, text, true);
    lemma_context_shows(lines, options, first, context.previous, context.previous.len());
    let chosen = context.with_selected(text, options);
    assert forall|k: int| 1 <= k <= lines.len() implies (#[trigger] is_shown(
        chosen.display.lines,
        k,
    ) <==> is_near(chosen.displayed, options, k)) by {
        lemma_near_with_match(context.displayed, options, number, context.previous, k);
        assert(is_shown(first.lines, k) <==> is_shown(context.display.lines, k) || k == number);
    }
}

proof fn lemma_next_line_shows_context(
    lines: Seq<Seq<u8>>,
    options: OptionsModel,
    state: ScanModel,
    raw: Seq<u8>,
)
    requires
        all_fit(lines.push(raw)),
        is_state_of(lines, options, state),
        shows_context(lines, options, state),
        state.with_line(raw, options) is Ok,
        options.max_results > 0,
    ensures
        shows_context(lines.push(raw), options, state.with_line(raw, options)->Ok_0),
{
    let longer = lines.push(raw);
    let number = longer.len() as u64;
    let text = normalized_line(raw, state.ansi)->Ok_0;
    lemma_new_text(lines, raw);
    lemma_state_stays(lines, options, state, raw);
    lemma_trailing_context_shown(lines, options, state, raw, text);
    let moved = ScanModel { total_lines: number, ansi: ansi_run(state.ansi, raw).0, ..state };
    let context = moved.with_trailing_context(text);
    let selects = options.selects(encode_utf8(text));
    assert(selects == (has_match(longer, options, number as int) != options.invert));
    let taken = selects && state.displayed.len() < shown_limit(options);
    let chosen = if selects {
        context.with_selected(text, options)
    } else {
        context
    };
    assert forall|i: int| 0 <= i < context.previous.len() implies 1 <= (
    #[trigger] context.previous[i]).0 <= longer.len() && context.previous[i].1 == line_text(
        longer,
        context.previous[i].0 as int,
    ) by {
        assert(context.previous[i] == state.previous[i]);
    }
    if taken {
        lemma_match_shown(longer, options, context, text);
    }
    lemma_next_matches(lines, options, state.displayed, raw);
    lemma_next_previous(lines.len(), options, chosen, text);
    let next = chosen.with_leading_context(text, options.before);
    assert(state.with_line(raw, options) == Ok::<ScanModel, Seq<char>>(next));
    assert(next.display == chosen.display && next.displayed == chosen.displayed);
    assert(shows_near(longer.len(), options, next));
}

proof fn lemma_fewer_fit(lines: Seq<Seq<u8>>)
    requires
        lines.len() > 0,
        all_fit(lines),
    ensures
        all_fit(lines.drop_last()),
{
    let rest = lines.drop_last();
    assert(rest.push(lines.last()) =~= lines);
    lemma_size_stays(rest, lines.last(), Seq::empty(), rest.len());
}

proof fn lemma_scan_shows_context(lines: Seq<Seq<u8>>, options: OptionsModel)
    requires
        all_fit(lines),
        options.max_results > 0,
        scanned(lines, options) is Ok,
    ensures
        shows_context(lines, options, scanned(lines, options)->Ok_0),
    decreases lines.len(),
{
    if lines.len() > 0 {
        let rest = lines.drop_last();
        assert(rest.push(lines.last()) =~= lines);
        lemma_fewer_fit(lines);
        lemma_scan_shows_context(rest, options);
        lemma_scan_keeps_state(rest, options);
        lemma_next_line_shows_context(
            rest,
            options,
            scanned(rest, options)->Ok_0,
            lines.last(),
        );
    }
}

/// A search shows the first lines that it selects, as many as were asked for but at most 32. Around
/// each of them it shows the lines before and after that were asked for, and no other lines, as
/// long as there is room for all lines of the source.
pub proof fn lemma_search_shows_matches_with_context(source: VerifiedSource, options: OptionsModel)
    requires
        source_search(source, options) is Ok,
        all_fit(source_lines(source.body@)),
        options.max_results > 0,
    ensures
        ({
            let lines = source_lines(source.body@);
            let found = source_search(source, options)->Ok_0;
            let displayed = found.displayed_selected;
            &&& forall|k: int|
                1 <= k <= lines.len() ==> (#[trigger] is_shown(found.lines, k) <==> is_near(
                    displayed,
                    options,
                    k,
                ))
            &&& forall|i: int|
                0 <= i < displayed.len() ==> has_match(
                    lines,
                    options,
                    #[trigger] displayed[i] as int,
                ) != options.invert
            &&& forall|k: int|
                1 <= k <= lines.len() && #[trigger] has_match(lines, options, k) != options.invert
                    ==> displayed.contains(k as u64) || (displayed.len() == (
                if options.max_results < 32 {
                    options.max_results
                } else {
                    32
                }) && displayed.last() < k)
        }),
{
    let lines = source_lines(source.body@);
    lemma_scan_shows_context(lines, options);
    lemma_scan_keeps_state(lines, options);
}

/// What is looked for: each pattern is one alternative. With `-F` it stands for its own text, and
/// with `-w` it must stand between word boundaries.
pub proof fn lemma_patterns_are_alternatives(
    options: OptionsModel,
    first: Seq<char>,
    rest: Seq<Seq<char>>,
)
    ensures
        options.patterns == seq![first] && !options.fixed && !options.word ==> options.pattern()
            == "(?:"@ + first + ")"@,
        options.patterns == seq![first] && options.fixed && !options.word ==> options.pattern()
            == "(?:"@ + escaped(first) + ")"@,
        options.patterns == seq![first] && !options.fixed && options.word ==> options.pattern()
            == "(?:\\b(?:"@ + first + ")\\b)"@,
        options.patterns == seq![first] && options.fixed && options.word ==> options.pattern()
            == "(?:\\b(?:"@ + escaped(first) + ")\\b)"@,
        rest.len() > 0 && options.patterns == rest.push(first) ==> options.pattern() == (
        OptionsModel { patterns: rest, ..options }).pattern() + "|"@ + (OptionsModel {
            patterns: seq![first],
            ..options
        }).pattern(),
{
    reveal_with_fuel(alternatives, 2);
    if rest.len() > 0 && options.patterns == rest.push(first) {
        lemma_alternatives_of_prefix(options.patterns, rest, rest.len(), options.fixed, options.word);
        assert(seq![first][0] == first);
    }
}

proof fn lemma_alternatives_of_prefix(
    patterns: Seq<Seq<char>>,
    rest: Seq<Seq<char>>,
    count: nat,
    fixed: bool,
    word: bool,
)
    requires
        count <= rest.len() <= patterns.len(),
        forall|i: int| 0 <= i < rest.len() ==> patterns[i] == rest[i],
    ensures
        alternatives(patterns, count, fixed, word) == alternatives(rest, count, fixed, word),
    decreases count,
{
    if count > 0 {
        lemma_alternatives_of_prefix(patterns, rest, (count - 1) as nat, fixed, word);
    }
}

} // verus!
