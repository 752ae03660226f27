//! Selected lines, their context and their rendering.
use vstd::prelude::*;
use vstd::utf8::encode_utf8;

use super::arguments::{parse_search, search_options, OptionsModel, SearchOptions};
use super::lines::{
    display_text, normalize_line, normalized_line, source_lines, truncate_display_line,
    MAX_QUERY_LINE_BYTES,
};
use super::matcher::{compile_matcher, refusal, Matcher};
use crate::archive::model::{SourceCompleteness, SourceName, VerifiedSource};
use crate::bytes::{append, append_decimal, append_text, copy, lit};
use crate::reducers::bucket::{fewer, one_more};
use crate::reducers::filter::{ansi_run, AnsiState, AnsiStripper};
use crate::text::{is_one_of, one_of, same_text, texts};

verus! {

/// How a search is used.
pub const SEARCH_HELP: &'static str = "Search one archived YARP call.\n\nExamples:\n  yarp search REF 'error|FAILED'\n  yarp search REF 'literal text' -F -i\n  yarp search REF 'warning' -v -C 3 --max-results 20\n  yarp read REF stdout 118:130\n\nUsage:\n  yarp search REF PATTERN [options]\n  yarp search REF -e PATTERN [-e PATTERN ...] [options]\n\nOptions: -e/--regexp -F/--fixed-strings -i/--ignore-case\n         -w/--word-regexp (ASCII boundaries) -v/--invert-match\n         -A/--after-context -B/--before-context -C/--context\n         -m/--max-results --\n";

/// The largest output of one query, in bytes.
pub const MAX_QUERY_OUTPUT_BYTES: usize = 32_768;

/// What a search found.
#[derive(Debug)]
pub enum SearchOutcome {
    Matches(Vec<u8>),
    NoMatches(Vec<u8>),
}

/// The contents of a [`SearchOutcome`].
#[verifier::ext_equal]
pub enum OutcomeModel {
    Matches(Seq<u8>),
    NoMatches(Seq<u8>),
}

impl View for SearchOutcome {
    type V = OutcomeModel;

    open spec fn view(&self) -> OutcomeModel {
        match self {
            SearchOutcome::Matches(output) => OutcomeModel::Matches(output@),
            SearchOutcome::NoMatches(output) => OutcomeModel::NoMatches(output@),
        }
    }
}

/// One line that a result shows.
#[derive(Debug)]
pub struct DisplayLine {
    pub number: u64,
    pub text: String,
    pub selected: bool,
}

/// The contents of a [`DisplayLine`].
#[verifier::ext_equal]
pub struct EntryModel {
    pub number: u64,
    pub text: Seq<char>,
    pub selected: bool,
}

impl View for DisplayLine {
    type V = EntryModel;

    open spec fn view(&self) -> EntryModel {
        EntryModel { number: self.number, text: self.text@, selected: self.selected }
    }
}

/// The contents of some lines.
pub open spec fn entry_models(lines: Seq<DisplayLine>) -> Seq<EntryModel> {
    lines.map_values(|line: DisplayLine| line@)
}

/// The position of the line with this number.
pub open spec fn entry_index(lines: Seq<EntryModel>, number: u64, from: int) -> Option<int>
    decreases lines.len() - from,
{
    if from < 0 || from >= lines.len() {
        None
    } else if lines[from].number == number {
        Some(from)
    } else {
        entry_index(lines, number, from + 1)
    }
}

/// The lines with one more in its place.
pub open spec fn entry_placed(lines: Seq<EntryModel>, entry: EntryModel) -> Seq<EntryModel>
    decreases lines.len(),
{
    if lines.len() == 0 || lines.last().number < entry.number {
        lines.push(entry)
    } else {
        entry_placed(lines.drop_last(), entry).push(lines.last())
    }
}

/// The shown lines of one source and the bytes that they take.
#[verifier::ext_equal]
pub struct DisplayModel {
    pub lines: Seq<EntryModel>,
    pub bytes: nat,
}

impl DisplayModel {
    /// There is room for one more line of this text.
    pub open spec fn has_room(self, text: Seq<char>) -> bool {
        self.lines.len() < 2_048 && self.bytes + encode_utf8(display_text(text)).len() <= 7_168
    }

    /// The display shows the line already or can take it.
    pub open spec fn accepts(self, number: u64, text: Seq<char>) -> bool {
        entry_index(self.lines, number, 0) is Some || self.has_room(text)
    }

    /// The display after a line was offered to it.
    pub open spec fn offered(self, number: u64, text: Seq<char>, selected: bool) -> DisplayModel {
        match entry_index(self.lines, number, 0) {
            Some(index) => DisplayModel {
                lines: self.lines.update(
                    index,
                    EntryModel {
                        selected: self.lines[index].selected || selected,
                        ..self.lines[index]
                    },
                ),
                ..self
            },
            None => if self.has_room(text) {
                DisplayModel {
                    lines: entry_placed(
                        self.lines,
                        EntryModel { number, text: display_text(text), selected },
                    ),
                    bytes: self.bytes + encode_utf8(display_text(text)).len(),
                }
            } else {
                self
            },
        }
    }

    /// The display after the first `count` context lines were offered to it.
    pub open spec fn with_context(self, context: Seq<(u64, Seq<char>)>, count: nat) -> DisplayModel
        decreases count,
    {
        if count == 0 {
            self
        } else {
            self.with_context(context, (count - 1) as nat).offered(
                context[count - 1].0,
                context[count - 1].1,
                false,
            )
        }
    }
}

/// The state of a search through one source.
#[verifier::ext_equal]
pub struct ScanModel {
    pub previous: Seq<(u64, Seq<char>)>,
    pub display: DisplayModel,
    pub displayed: Seq<u64>,
    pub total_selected: u64,
    pub total_lines: u64,
    pub after_remaining: nat,
    pub ansi: AnsiState,
}

impl ScanModel {
    /// The state before the first line.
    pub open spec fn fresh() -> ScanModel {
        ScanModel {
            previous: Seq::empty(),
            display: DisplayModel { lines: Seq::empty(), bytes: 0 },
            displayed: Seq::empty(),
            total_selected: 0,
            total_lines: 0,
            after_remaining: 0,
            ansi: AnsiState::Ground,
        }
    }

    /// The state after the line was shown as context of an earlier one.
    pub open spec fn with_trailing_context(self, text: Seq<char>) -> ScanModel {
        if self.after_remaining > 0 {
            ScanModel {
                display: self.display.offered(self.total_lines, text, false),
                after_remaining: (self.after_remaining - 1) as nat,
                ..self
            }
        } else {
            self
        }
    }

    /// The state after the line was selected: counted, and shown with its context while there
    /// is room.
    pub open spec fn with_selected(self, text: Seq<char>, options: OptionsModel) -> ScanModel {
        let counted = ScanModel { total_selected: one_more(self.total_selected), ..self };
        let shown = if options.max_results < 32 {
            options.max_results
        } else {
            32
        };
        if self.displayed.len() < shown && self.display.accepts(self.total_lines, text) {
            ScanModel {
                display: self.display.offered(self.total_lines, text, true).with_context(
                    self.previous,
                    self.previous.len(),
                ),
                displayed: self.displayed.push(self.total_lines),
                after_remaining: options.after,
                ..counted
            }
        } else {
            counted
        }
    }

    /// The state after the line was kept as possible context of a later one.
    pub open spec fn with_leading_context(self, text: Seq<char>, before: nat) -> ScanModel {
        if before == 0 {
            self
        } else {
            ScanModel {
                previous: (if self.previous.len() == before {
                    self.previous.drop_first()
                } else {
                    self.previous
                }).push((self.total_lines, text)),
                ..self
            }
        }
    }

    /// The state after one more line.
    pub open spec fn with_line(self, raw: Seq<u8>, options: OptionsModel) -> Result<
        ScanModel,
        Seq<char>,
    > {
        if raw.len() > MAX_QUERY_LINE_BYTES {
            Err(
                "archived source line exceeds 1048576 bytes; use a bounded yarp read --bytes range"@,
            )
        } else {
            match normalized_line(raw, self.ansi) {
                Err(fault) => Err(fault),
                Ok(text) => {
                    let context = (ScanModel {
                        total_lines: one_more(self.total_lines),
                        ansi: ansi_run(self.ansi, raw).0,
                        ..self
                    }).with_trailing_context(text);
                    Ok(
                        (if options.selects(encode_utf8(text)) {
                            context.with_selected(text, options)
                        } else {
                            context
                        }).with_leading_context(text, options.before),
                    )
                },
            }
        }
    }
}

/// The state after a search through some lines.
pub open spec fn scanned(lines: Seq<Seq<u8>>, options: OptionsModel) -> Result<ScanModel, Seq<char>>
    decreases lines.len(),
{
    if lines.len() == 0 {
        Ok(ScanModel::fresh())
    } else {
        match scanned(lines.drop_last(), options) {
            Err(fault) => Err(fault),
            Ok(state) => state.with_line(lines.last(), options),
        }
    }
}

proof fn lemma_scan_fault_stays(lines: Seq<Seq<u8>>, count: int, options: OptionsModel)
    requires
        0 <= count <= lines.len(),
        scanned(lines.take(count), options) is Err,
    ensures
        scanned(lines, options) == scanned(lines.take(count), options),
    decreases lines.len() - count,
{
    if count == lines.len() {
        assert(lines.take(count) =~= lines);
    } else {
        assert(lines.take(count + 1).drop_last() =~= lines.take(count));
        lemma_scan_fault_stays(lines, count + 1, options);
    }
}

/// The shown lines of one source.
struct DisplayStore {
    lines: Vec<DisplayLine>,
    bytes: usize,
}

impl View for DisplayStore {
    type V = DisplayModel;

    closed spec fn view(&self) -> DisplayModel {
        DisplayModel { lines: entry_models(self.lines@), bytes: self.bytes as nat }
    }
}

impl DisplayStore {
    spec fn well_formed(&self) -> bool {
        self.bytes <= 7_168
    }

    fn find(&self, number: u64) -> (index: Option<usize>)
        ensures
            index is None <==> entry_index(self@.lines, number, 0) is None,
            index matches Some(i) ==> i < self.lines@.len() && entry_index(self@.lines, number, 0)
                == Some(i as int),
    {
        let ghost entries = self@.lines;
        let mut i: usize = 0;
        while i < self.lines.len()
            invariant
                i <= self.lines.len(),
                entries == entry_models(self.lines@),
                entry_index(entries, number, 0) == entry_index(entries, number, i as int),
            decreases self.lines.len() - i,
        {
            assert(entries[i as int] == self.lines@[i as int]@);
            if self.lines[i].number == number {
                return Some(i);
            }
            i += 1;
        }
        None
    }

    fn place(&mut self, line: DisplayLine)
        ensures
            entry_models(final(self).lines@) == entry_placed(entry_models(old(self).lines@), line@),
            final(self).bytes == old(self).bytes,
    {
        let ghost before = entry_models(self.lines@);
        let mut position: usize = self.lines.len();
        assert(before.take(before.len() as int) =~= before);
        assert(entry_placed(before, line@) =~= entry_placed(before, line@) + before.skip(
            before.len() as int,
        ));
        while position > 0 && self.lines[position - 1].number >= line.number
            invariant
                position <= self.lines.len(),
                before == entry_models(self.lines@),
                entry_placed(before, line@) == entry_placed(before.take(position as int), line@)
                    + before.skip(position as int),
                self.bytes == old(self).bytes,
            decreases position,
        {
            proof {
                let upper = before.take(position as int);
                assert(upper.last() == self.lines@[position - 1]@);
                assert(upper.drop_last() =~= before.take(position - 1));
                assert(entry_placed(upper.drop_last(), line@).push(upper.last()) + before.skip(
                    position as int,
                ) =~= entry_placed(upper.drop_last(), line@) + before.skip(position - 1));
            }
            position -= 1;
        }
        proof {
            let upper = before.take(position as int);
            if position > 0 {
                assert(upper.last() == self.lines@[position - 1]@);
            }
            assert(entry_placed(upper, line@) == upper.push(line@));
        }
        let ghost entry = line@;
        self.lines.insert(position, line);
        assert(entry_models(self.lines@) =~= before.take(position as int).push(entry) + before.skip(
            position as int,
        ));
    }

    /// Offer a line to the display; the result says whether it is shown.
    fn insert(&mut self, number: u64, text: &str, selected: bool) -> (shown: bool)
        requires
            old(self).well_formed(),
        ensures
            final(self).well_formed(),
            final(self)@ == old(self)@.offered(number, text@, selected),
            shown == old(self)@.accepts(number, text@),
    {
        let ghost before = self@;
        if let Some(index) = self.find(number) {
            let combined: bool = self.lines[index].selected || selected;
            self.lines[index].selected = combined;
            assert(self@.lines =~= before.offered(number, text@, selected).lines);
            return true;
        }
        let line = truncate_display_line(text);
        let length: usize = line.as_str().as_bytes().len();
        proof {
            super::lines::lemma_display_text_bounded(text@);
        }
        if self.lines.len() >= 2_048 || self.bytes + length > 7_168 {
            return false;
        }
        self.bytes = self.bytes + length;
        self.place(DisplayLine { number, text: line, selected });
        true
    }
}

spec fn context_models(context: Seq<(u64, String)>) -> Seq<(u64, Seq<char>)> {
    context.map_values(|line: (u64, String)| (line.0, line.1@))
}

/// The state of a search through one source.
struct SourceScan {
    previous: Vec<(u64, String)>,
    display: DisplayStore,
    displayed: Vec<u64>,
    total_selected: u64,
    total_lines: u64,
    after_remaining: usize,
    ansi: AnsiStripper,
}

impl View for SourceScan {
    type V = ScanModel;

    closed spec fn view(&self) -> ScanModel {
        ScanModel {
            previous: context_models(self.previous@),
            display: self.display@,
            displayed: self.displayed@,
            total_selected: self.total_selected,
            total_lines: self.total_lines,
            after_remaining: self.after_remaining as nat,
            ansi: self.ansi@,
        }
    }
}

impl SourceScan {
    spec fn well_formed(&self) -> bool {
        self.display.well_formed()
    }

    fn new() -> (scan: Self)
        ensures
            scan@ == ScanModel::fresh(),
            scan.well_formed(),
    {
        let scan = SourceScan {
            previous: Vec::new(),
            display: DisplayStore { lines: Vec::new(), bytes: 0 },
            displayed: Vec::new(),
            total_selected: 0,
            total_lines: 0,
            after_remaining: 0,
            ansi: AnsiStripper::new(),
        };
        assert(scan@.previous =~= Seq::empty());
        assert(scan@.display.lines =~= Seq::empty());
        scan
    }

    fn select(&mut self, text: &str, options: &SearchOptions)
        requires
            old(self).well_formed(),
        ensures
            final(self).well_formed(),
            final(self)@ == old(self)@.with_selected(text@, options@),
    {
        let ghost before = self@;
        self.total_selected = self.total_selected.saturating_add(1);
        let limit: usize = if options.max_results < 32 {
            options.max_results
        } else {
            32
        };
        if self.displayed.len() >= limit {
            return ;
        }
        let number: u64 = self.total_lines;
        if !self.display.insert(number, text, true) {
            assert(entry_index(before.display.lines, number, 0) is None);
            return ;
        }
        let ghost offered = self.display@;
        let ghost counted = *self;
        let mut i: usize = 0;
        while i < self.previous.len()
            invariant
                i <= self.previous.len(),
                self.well_formed(),
                self.previous@ == counted.previous@,
                self.display@ == offered.with_context(context_models(self.previous@), i as nat),
                self@ == (ScanModel { display: self.display@, ..counted@ }),
            decreases self.previous.len() - i,
        {
            let ghost context = context_models(self.previous@);
            assert(context[i as int] == (self.previous@[i as int].0, self.previous@[i as int].1@));
            let number: u64 = self.previous[i].0;
            let _ = self.display.insert(number, self.previous[i].1.as_str(), false);
            i += 1;
        }
        self.displayed.push(number);
        self.after_remaining = options.after;
        assert(context_models(self.previous@).len() == self.previous@.len());
    }

    fn observe(&mut self, raw: &[u8], matcher: &Matcher, options: &SearchOptions) -> (result: Result<
        (),
        String,
    >)
        requires
            old(self).well_formed(),
            matcher.language() == options@.language(),
        ensures
            match (result, old(self)@.with_line(raw@, options@)) {
                (Ok(_), Ok(next)) => final(self)@ == next && final(self).well_formed(),
                (Err(error), Err(fault)) => error@ == fault,
                _ => false,
            },
    {
        if raw.len() > MAX_QUERY_LINE_BYTES {
            return Err(
                "archived source line exceeds 1048576 bytes; use a bounded yarp read --bytes range".to_owned(),
            );
        }
        let text = normalize_line(raw, &mut self.ansi)?;
        self.total_lines = self.total_lines.saturating_add(1);
        let number: u64 = self.total_lines;
        if self.after_remaining > 0 {
            let _ = self.display.insert(number, text.as_str(), false);
            self.after_remaining = self.after_remaining - 1;
        }
        let matched: bool = matcher.is_match(text.as_str().as_bytes());
        if matched != options.invert {
            self.select(text.as_str(), options);
        }
        if options.before > 0 {
            let ghost before = self@;
            if self.previous.len() == options.before {
                let _ = self.previous.remove(0);
                assert(context_models(self.previous@) =~= before.previous.drop_first());
            }
            let ghost kept = context_models(self.previous@);
            self.previous.push((number, text));
            assert(context_models(self.previous@) =~= kept.push((number, text@)));
        }
        Ok(())
    }
}

/// What a search found in one source.
#[derive(Debug)]
pub struct SourceSearch {
    pub name: SourceName,
    pub completeness: SourceCompleteness,
    pub total_lines: u64,
    pub total_selected: u64,
    pub displayed_selected: Vec<u64>,
    pub lines: Vec<DisplayLine>,
    pub before: usize,
    pub after: usize,
    pub max_results: usize,
}

/// The contents of a [`SourceSearch`].
#[verifier::ext_equal]
pub struct SourceSearchModel {
    pub name: SourceName,
    pub completeness: SourceCompleteness,
    pub total_lines: u64,
    pub total_selected: u64,
    pub displayed_selected: Seq<u64>,
    pub lines: Seq<EntryModel>,
    pub before: nat,
    pub after: nat,
    pub max_results: nat,
}

impl View for SourceSearch {
    type V = SourceSearchModel;

    open spec fn view(&self) -> SourceSearchModel {
        SourceSearchModel {
            name: self.name,
            completeness: self.completeness,
            total_lines: self.total_lines,
            total_selected: self.total_selected,
            displayed_selected: self.displayed_selected@,
            lines: entry_models(self.lines@),
            before: self.before as nat,
            after: self.after as nat,
            max_results: self.max_results as nat,
        }
    }
}

/// What a search finds in one source.
pub open spec fn source_search(source: VerifiedSource, options: OptionsModel) -> Result<
    SourceSearchModel,
    Seq<char>,
> {
    if source.media_type@ != "text/plain; charset=utf-8"@ {
        Err(
            source.name.text() + " is binary; use yarp read REF "@ + source.name.text()
                + " --bytes START:END"@,
        )
    } else {
        match scanned(source_lines(source.body@), options) {
            Err(fault) => Err(fault),
            Ok(state) => Ok(
                SourceSearchModel {
                    name: source.name,
                    completeness: source.completeness,
                    total_lines: state.total_lines,
                    total_selected: state.total_selected,
                    displayed_selected: state.displayed,
                    lines: state.display.lines,
                    before: options.before,
                    after: options.after,
                    max_results: options.max_results,
                },
            ),
        }
    }
}

/// Search one source.
///
/// # Errors
///
/// Returns an error for a binary source and for a line that is too long or not UTF-8.
pub fn search_source(source: &VerifiedSource, matcher: &Matcher, options: &SearchOptions) -> (result:
    Result<SourceSearch, String>)
    requires
        matcher.language() == options@.language(),
    ensures
        match (result, source_search(*source, options@)) {
            (Ok(found), Ok(model)) => found@ == model,
            (Err(error), Err(fault)) => error@ == fault,
            _ => false,
        },
{
    let name: &'static str = source.name.as_str();
    if !same_text(source.media_type.as_str(), "text/plain; charset=utf-8") {
        let opening = crate::text::join4(
            name,
            " is binary; use yarp read REF ",
            name,
            " --bytes START:END",
        );
        return Err(opening);
    }
    let body: &[u8] = source.body.as_slice();
    let ghost all = source_lines(body@);
    let ghost model = options@;
    let mut scan = SourceScan::new();
    let mut start: usize = 0;
    let mut i: usize = 0;
    assert(body@.take(0) =~= Seq::empty());
    while i < body.len()
        invariant
            start <= i <= body.len(),
            start == 0 || body@[start - 1] == 10,
            forall|j: int| start <= j < i ==> body@[j] != 10,
            scan.well_formed(),
            matcher.language() == model.language(),
            model == options@,
            all == source_lines(body@),
            body@ == source.body@,
            source.media_type@ == "text/plain; charset=utf-8"@,
            scanned(source_lines(body@.take(start as int)), model) == Ok::<ScanModel, Seq<char>>(
                scan@,
            ),
        decreases body.len() - i,
    {
        if body[i] == 10 {
            let line: &[u8] = &body[start..i + 1];
            let ghost earlier = source_lines(body@.take(start as int));
            proof {
                super::lines::lemma_line_ends(body@, start as int, i as int);
                let later = source_lines(body@.take(i + 1));
                assert(later.drop_last() =~= earlier);
                assert(later.last() == line@);
            }
            if let Err(error) = scan.observe(line, matcher, options) {
                proof {
                    super::lines::lemma_lines_prefix(body@, i + 1);
                    lemma_scan_fault_stays(
                        all,
                        source_lines(body@.take(i + 1)).len() as int,
                        model,
                    );
                }
                return Err(error);
            }
            start = i + 1;
        }
        i += 1;
    }
    proof {
        super::lines::lemma_lines_after_break(body@, start as int, body@.len() as int);
        assert(body@.take(body@.len() as int) =~= body@);
    }
    if start < body.len() {
        let line: &[u8] = &body[start..body.len()];
        proof {
            assert(all.drop_last() =~= source_lines(body@.take(start as int)));
            assert(all.last() == line@);
        }
        scan.observe(line, matcher, options)?;
    }
    Ok(
        SourceSearch {
            name: source.name,
            completeness: source.completeness,
            total_lines: scan.total_lines,
            total_selected: scan.total_selected,
            displayed_selected: scan.displayed,
            lines: scan.display.lines,
            before: options.before,
            after: options.after,
            max_results: options.max_results,
        },
    )
}

/// The first line of the context of a selected line.
pub open spec fn context_start(selected: u64, before: nat) -> u64 {
    if selected > before + 1 {
        (selected - before) as u64
    } else {
        1
    }
}

/// The last line of the context of a selected line.
pub open spec fn context_end(selected: u64, after: nat, total_lines: u64) -> u64 {
    if selected + after < total_lines {
        (selected + after) as u64
    } else {
        total_lines
    }
}

/// The ranges of lines around the selected ones; ranges that touch are one.
pub open spec fn groups_of(
    selected: Seq<u64>,
    before: nat,
    after: nat,
    total_lines: u64,
) -> Seq<(u64, u64)>
    decreases selected.len(),
{
    if selected.len() == 0 {
        Seq::empty()
    } else {
        let rest = groups_of(selected.drop_last(), before, after, total_lines);
        let start = context_start(selected.last(), before);
        let end = context_end(selected.last(), after, total_lines);
        if rest.len() > 0 && start <= one_more(rest.last().1) {
            rest.update(
                rest.len() - 1,
                (
                    rest.last().0,
                    if rest.last().1 > end {
                        rest.last().1
                    } else {
                        end
                    },
                ),
            )
        } else {
            rest.push((start, end))
        }
    }
}

/// One of the ranges holds the line.
pub open spec fn some_group_holds(groups: Seq<(u64, u64)>, line: u64) -> bool {
    exists|g: int| 0 <= g < groups.len() && (#[trigger] groups[g]).0 <= line <= groups[g].1
}

/// The ranges are apart and in order.
pub open spec fn groups_apart(groups: Seq<(u64, u64)>) -> bool {
    forall|g: int, h: int|
        0 <= g < h < groups.len() ==> (#[trigger] groups[g]).1 + 1 < (#[trigger] groups[h]).0
}

/// Every selected line stands in one of the ranges, and the ranges are apart and in order.
pub proof fn lemma_groups_hold_the_selected_lines(
    selected: Seq<u64>,
    before: nat,
    after: nat,
    total_lines: u64,
)
    requires
        forall|i: int| 0 <= i < selected.len() ==> 1 <= #[trigger] selected[i] <= total_lines,
        forall|i: int, j: int|
            0 <= i < j < selected.len() ==> #[trigger] selected[i] < #[trigger] selected[j],
    ensures
        forall|i: int|
            0 <= i < selected.len() ==> some_group_holds(
                groups_of(selected, before, after, total_lines),
                #[trigger] selected[i],
            ),
        groups_apart(groups_of(selected, before, after, total_lines)),
        forall|g: int|
            0 <= g < groups_of(selected, before, after, total_lines).len() ==> {
                let group = #[trigger] groups_of(selected, before, after, total_lines)[g];
                1 <= group.0 <= group.1 <= total_lines
            },
    decreases selected.len(),
{
    if selected.len() > 0 {
        let rest = groups_of(selected.drop_last(), before, after, total_lines);
        lemma_groups_hold_the_selected_lines(selected.drop_last(), before, after, total_lines);
        let groups = groups_of(selected, before, after, total_lines);
        let last = selected.last();
        let start = context_start(last, before);
        let end = context_end(last, after, total_lines);
        if rest.len() > 0 && start <= one_more(rest.last().1) {
            lemma_last_group_starts_early(selected.drop_last(), before, after, total_lines, last);
            assert(groups[groups.len() - 1].0 <= last <= groups[groups.len() - 1].1);
            assert(some_group_holds(groups, last));
            assert forall|i: int| 0 <= i < selected.len() implies some_group_holds(
                groups,
                #[trigger] selected[i],
            ) by {
                if i < selected.len() - 1 {
                    assert(selected.drop_last()[i] == selected[i]);
                    let g = choose|g: int|
                        0 <= g < rest.len() && (#[trigger] rest[g]).0 <= selected[i] <= rest[g].1;
                    assert(groups[g].0 <= selected[i] <= groups[g].1);
                }
            }
        } else {
            assert(groups[groups.len() - 1] == (start, end));
            assert(some_group_holds(groups, last));
            assert forall|i: int| 0 <= i < selected.len() implies some_group_holds(
                groups,
                #[trigger] selected[i],
            ) by {
                if i < selected.len() - 1 {
                    assert(selected.drop_last()[i] == selected[i]);
                    let g = choose|g: int|
                        0 <= g < rest.len() && (#[trigger] rest[g]).0 <= selected[i] <= rest[g].1;
                    assert(groups[g].0 <= selected[i] <= groups[g].1);
                }
            }
        }
    }
}

proof fn lemma_last_group_starts_early(
    selected: Seq<u64>,
    before: nat,
    after: nat,
    total_lines: u64,
    next: u64,
)
    requires
        selected.len() > 0,
        forall|i: int| 0 <= i < selected.len() ==> 1 <= #[trigger] selected[i] < next,
    ensures
        groups_of(selected, before, after, total_lines).len() > 0,
        groups_of(selected, before, after, total_lines).last().0 <= next,
    decreases selected.len(),
{
    let rest = groups_of(selected.drop_last(), before, after, total_lines);
    assert(selected[selected.len() - 1] == selected.last());
    if selected.len() > 1 {
        lemma_last_group_starts_early(selected.drop_last(), before, after, total_lines, next);
    }
}

/// How the completeness of a source is shown.
pub open spec fn completeness_text(value: SourceCompleteness) -> Seq<char> {
    match value {
        SourceCompleteness::Complete => "true"@,
        SourceCompleteness::Incomplete => "false"@,
        SourceCompleteness::Unknown => "unknown"@,
    }
}

/// One shown line.
pub open spec fn entry_text(name: SourceName, entry: EntryModel) -> Seq<u8> {
    let separator = if entry.selected {
        lit(":")
    } else {
        lit("-")
    };
    encode_utf8(name.text()) + separator + crate::bytes::decimal(entry.number as nat) + separator
        + encode_utf8(entry.text) + lit("\n")
}

/// The shown lines from `start` to `end`.
pub open spec fn range_text(
    name: SourceName,
    lines: Seq<EntryModel>,
    start: u64,
    end: u64,
) -> Seq<u8>
    decreases lines.len(),
{
    if lines.len() == 0 {
        Seq::empty()
    } else if start <= lines.last().number <= end {
        range_text(name, lines.drop_last(), start, end) + entry_text(name, lines.last())
    } else {
        range_text(name, lines.drop_last(), start, end)
    }
}

/// The first `count` ranges, with a separator between them.
pub open spec fn groups_text(
    name: SourceName,
    lines: Seq<EntryModel>,
    groups: Seq<(u64, u64)>,
    count: nat,
) -> Seq<u8>
    decreases count,
{
    if count == 0 {
        Seq::empty()
    } else {
        groups_text(name, lines, groups, (count - 1) as nat) + (if count > 1 {
            lit("--\n")
        } else {
            Seq::empty()
        }) + range_text(name, lines, groups[count - 1].0, groups[count - 1].1)
    }
}

/// How the first `count` ranges can be read exactly.
pub open spec fn hints_text(
    archive_ref: Seq<char>,
    name: SourceName,
    groups: Seq<(u64, u64)>,
    count: nat,
) -> Seq<u8>
    decreases count,
{
    if count == 0 {
        Seq::empty()
    } else {
        hints_text(archive_ref, name, groups, (count - 1) as nat) + hint_text(
            archive_ref,
            name,
            groups[count - 1],
        )
    }
}

/// How a range can be read exactly.
pub open spec fn hint_text(archive_ref: Seq<char>, name: SourceName, group: (u64, u64)) -> Seq<u8> {
    lit("Read exact context: yarp read ") + encode_utf8(archive_ref) + lit(" ") + encode_utf8(
        name.text(),
    ) + lit(" ") + crate::bytes::decimal(group.0 as nat) + lit(":") + crate::bytes::decimal(
        group.1 as nat,
    ) + lit("\n")
}

impl SourceSearchModel {
    /// The heading of the result of one source.
    pub open spec fn heading(self) -> Seq<u8> {
        lit("[source=") + encode_utf8(self.name.text()) + lit(" complete=") + encode_utf8(
            completeness_text(self.completeness),
        ) + lit(" matches=") + crate::bytes::decimal(self.total_selected as nat) + lit(" showing=")
            + crate::bytes::decimal(self.displayed_selected.len()) + lit(" before=")
            + crate::bytes::decimal(self.before) + lit(" after=") + crate::bytes::decimal(
            self.after,
        ) + lit(" max_results=") + crate::bytes::decimal(self.max_results) + lit("]\n")
    }

    /// The ranges that the result shows.
    pub open spec fn groups(self) -> Seq<(u64, u64)> {
        groups_of(self.displayed_selected, self.before, self.after, self.total_lines)
    }

    /// The note on selected lines that are not shown.
    pub open spec fn omission(self) -> Seq<u8> {
        let omitted = fewer(self.total_selected, self.displayed_selected.len());
        if omitted > 0 {
            lit("[yarp search: ") + crate::bytes::decimal(omitted as nat) + lit(
                " selected line(s) omitted]\n",
            )
        } else {
            Seq::empty()
        }
    }

    /// The result of one source.
    pub open spec fn text(self, archive_ref: Seq<char>) -> Seq<u8> {
        self.heading() + groups_text(self.name, self.lines, self.groups(), self.groups().len())
            + self.omission() + hints_text(
            archive_ref,
            self.name,
            self.groups(),
            self.groups().len(),
        )
    }
}

/// The results of the first `count` sources, with a separator between them.
pub open spec fn sources_text(
    archive_ref: Seq<char>,
    sources: Seq<SourceSearchModel>,
    count: nat,
) -> Seq<u8>
    decreases count,
{
    if count == 0 {
        lit("[yarp search: ref=") + encode_utf8(archive_ref) + lit("]\n")
    } else {
        sources_text(archive_ref, sources, (count - 1) as nat) + (if count > 1 {
            lit("--\n")
        } else {
            Seq::empty()
        }) + sources[count - 1].text(archive_ref)
    }
}

/// The contents of some results.
pub open spec fn search_models(sources: Seq<SourceSearch>) -> Seq<SourceSearchModel> {
    sources.map_values(|source: SourceSearch| source@)
}

/// The rendered results, or that they are too large.
pub open spec fn rendered_search(archive_ref: Seq<char>, sources: Seq<SourceSearchModel>) -> Result<
    Seq<u8>,
    Seq<char>,
> {
    let output = sources_text(archive_ref, sources, sources.len());
    if output.len() > MAX_QUERY_OUTPUT_BYTES {
        Err("bounded search rendering exceeded 32 KiB"@)
    } else {
        Ok(output)
    }
}

/// A result with its bytes.
pub open spec fn bytes_result(result: Result<Vec<u8>, String>) -> Result<Seq<u8>, Seq<char>> {
    match result {
        Ok(bytes) => Ok(bytes@),
        Err(error) => Err(error@),
    }
}

/// The ranges of lines around the displayed ones; ranges that touch are one.
pub fn displayed_groups(source: &SourceSearch) -> (groups: Vec<(u64, u64)>)
    ensures
        groups@ == source@.groups(),
{
    let ghost model = source@;
    let mut groups: Vec<(u64, u64)> = Vec::new();
    let mut i: usize = 0;
    assert(groups@ =~= groups_of(
        model.displayed_selected.take(0),
        model.before,
        model.after,
        model.total_lines,
    ));
    while i < source.displayed_selected.len()
        invariant
            i <= source.displayed_selected.len(),
            model == source@,
            groups@ == groups_of(
                model.displayed_selected.take(i as int),
                model.before,
                model.after,
                model.total_lines,
            ),
        decreases source.displayed_selected.len() - i,
    {
        let selected: u64 = source.displayed_selected[i];
        proof {
            let upper = model.displayed_selected.take(i + 1);
            assert(upper.drop_last() =~= model.displayed_selected.take(i as int));
            assert(upper.last() == selected);
        }
        let lowered: u64 = selected.saturating_sub(source.before as u64);
        let start: u64 = if lowered > 1 {
            lowered
        } else {
            1
        };
        let raised: u64 = selected.saturating_add(source.after as u64);
        let end: u64 = if raised < source.total_lines {
            raised
        } else {
            source.total_lines
        };
        assert(start == context_start(selected, model.before));
        assert(end == context_end(selected, model.after, model.total_lines));
        let count: usize = groups.len();
        if count > 0 && start <= groups[count - 1].1.saturating_add(1) {
            let last = groups[count - 1];
            let reach: u64 = if last.1 > end {
                last.1
            } else {
                end
            };
            groups.set(count - 1, (last.0, reach));
        } else {
            groups.push((start, end));
        }
        i += 1;
    }
    assert(model.displayed_selected.take(model.displayed_selected.len() as int)
        =~= model.displayed_selected);
    groups
}

fn completeness_label(value: SourceCompleteness) -> (label: &'static str)
    ensures
        label@ == completeness_text(value),
{
    match value {
        SourceCompleteness::Complete => "true",
        SourceCompleteness::Incomplete => "false",
        SourceCompleteness::Unknown => "unknown",
    }
}

fn append_entry(output: &mut Vec<u8>, name: SourceName, line: &DisplayLine)
    ensures
        final(output)@ == old(output)@ + entry_text(name, line@),
{
    let separator: &'static str = if line.selected {
        ":"
    } else {
        "-"
    };
    let mut text: Vec<u8> = copy(name.as_str().as_bytes());
    append_text(&mut text, separator);
    append_decimal(&mut text, line.number);
    append_text(&mut text, separator);
    append_text(&mut text, line.text.as_str());
    append_text(&mut text, "\n");
    append(output, text.as_slice());
}

fn append_range(output: &mut Vec<u8>, source: &SourceSearch, start: u64, end: u64)
    ensures
        final(output)@ == old(output)@ + range_text(source.name, source@.lines, start, end),
{
    let ghost lines = source@.lines;
    let ghost before = output@;
    let mut i: usize = 0;
    assert(output@ =~= before + range_text(source.name, lines.take(0), start, end));
    while i < source.lines.len()
        invariant
            i <= source.lines.len(),
            lines == entry_models(source.lines@),
            output@ == before + range_text(source.name, lines.take(i as int), start, end),
        decreases source.lines.len() - i,
    {
        proof {
            assert(lines.take(i + 1).drop_last() =~= lines.take(i as int));
            assert(lines.take(i + 1).last() == source.lines@[i as int]@);
        }
        let number: u64 = source.lines[i].number;
        if start <= number && number <= end {
            append_entry(output, source.name, &source.lines[i]);
            assert(output@ =~= before + range_text(source.name, lines.take(i + 1), start, end));
        }
        i += 1;
    }
    assert(lines.take(lines.len() as int) =~= lines);
}

fn append_groups(output: &mut Vec<u8>, source: &SourceSearch, groups: &Vec<(u64, u64)>)
    ensures
        final(output)@ == old(output)@ + groups_text(
            source.name,
            source@.lines,
            groups@,
            groups@.len(),
        ),
{
    let ghost before = output@;
    let mut i: usize = 0;
    assert(output@ =~= before + groups_text(source.name, source@.lines, groups@, 0));
    while i < groups.len()
        invariant
            i <= groups.len(),
            output@ == before + groups_text(source.name, source@.lines, groups@, i as nat),
        decreases groups.len() - i,
    {
        let ghost earlier = output@;
        let mut separator: Vec<u8> = Vec::new();
        if i > 0 {
            separator = copy("--\n".as_bytes());
        }
        append(output, separator.as_slice());
        append_range(output, source, groups[i].0, groups[i].1);
        assert(output@ =~= before + groups_text(source.name, source@.lines, groups@, i as nat + 1));
        i += 1;
    }
}

fn append_hints(
    output: &mut Vec<u8>,
    archive_ref: &str,
    name: SourceName,
    groups: &Vec<(u64, u64)>,
)
    ensures
        final(output)@ == old(output)@ + hints_text(archive_ref@, name, groups@, groups@.len()),
{
    let ghost before = output@;
    let mut i: usize = 0;
    assert(output@ =~= before + hints_text(archive_ref@, name, groups@, 0));
    while i < groups.len()
        invariant
            i <= groups.len(),
            output@ == before + hints_text(archive_ref@, name, groups@, i as nat),
        decreases groups.len() - i,
    {
        let mut text: Vec<u8> = copy("Read exact context: yarp read ".as_bytes());
        append_text(&mut text, archive_ref);
        append_text(&mut text, " ");
        append_text(&mut text, name.as_str());
        append_text(&mut text, " ");
        append_decimal(&mut text, groups[i].0);
        append_text(&mut text, ":");
        append_decimal(&mut text, groups[i].1);
        append_text(&mut text, "\n");
        assert(text@ == hint_text(archive_ref@, name, groups@[i as int]));
        append(output, text.as_slice());
        assert(output@ =~= before + hints_text(archive_ref@, name, groups@, i as nat + 1));
        i += 1;
    }
}

fn source_heading(source: &SourceSearch) -> (text: Vec<u8>)
    ensures
        text@ == source@.heading(),
{
    let mut text: Vec<u8> = copy("[source=".as_bytes());
    append_text(&mut text, source.name.as_str());
    append_text(&mut text, " complete=");
    append_text(&mut text, completeness_label(source.completeness));
    append_text(&mut text, " matches=");
    append_decimal(&mut text, source.total_selected);
    append_text(&mut text, " showing=");
    append_decimal(&mut text, source.displayed_selected.len() as u64);
    append_text(&mut text, " before=");
    append_decimal(&mut text, source.before as u64);
    append_text(&mut text, " after=");
    append_decimal(&mut text, source.after as u64);
    append_text(&mut text, " max_results=");
    append_decimal(&mut text, source.max_results as u64);
    append_text(&mut text, "]\n");
    text
}

fn source_text(archive_ref: &str, source: &SourceSearch) -> (text: Vec<u8>)
    ensures
        text@ == source@.text(archive_ref@),
{
    let mut text = source_heading(source);
    let groups = displayed_groups(source);
    append_groups(&mut text, source, &groups);
    let omitted: u64 = source.total_selected.saturating_sub(source.displayed_selected.len() as u64);
    let mut note: Vec<u8> = Vec::new();
    if omitted > 0 {
        note = copy("[yarp search: ".as_bytes());
        append_decimal(&mut note, omitted);
        append_text(&mut note, " selected line(s) omitted]\n");
    }
    assert(note@ == source@.omission());
    append(&mut text, note.as_slice());
    append_hints(&mut text, archive_ref, source.name, &groups);
    text
}

/// Render the results of a search.
///
/// # Errors
///
/// Returns an error when the rendering is larger than a query may print.
pub fn render_search(archive_ref: &str, sources: &Vec<SourceSearch>) -> (result: Result<
    Vec<u8>,
    String,
>)
    ensures
        bytes_result(result) == rendered_search(archive_ref@, search_models(sources@)),
{
    let ghost models = search_models(sources@);
    let mut output: Vec<u8> = copy("[yarp search: ref=".as_bytes());
    append_text(&mut output, archive_ref);
    append_text(&mut output, "]\n");
    let mut i: usize = 0;
    while i < sources.len()
        invariant
            i <= sources.len(),
            models == search_models(sources@),
            output@ == sources_text(archive_ref@, models, i as nat),
        decreases sources.len() - i,
    {
        let mut separator: Vec<u8> = Vec::new();
        if i > 0 {
            separator = copy("--\n".as_bytes());
        }
        assert(models[i as int] == sources@[i as int]@);
        append(&mut output, separator.as_slice());
        append(&mut output, source_text(archive_ref, &sources[i]).as_slice());
        i += 1;
    }
    assert(models.len() == sources@.len());
    if output.len() > MAX_QUERY_OUTPUT_BYTES {
        return Err("bounded search rendering exceeded 32 KiB".to_owned());
    }
    Ok(output)
}

/// What a search finds in the first `count` sources.
pub open spec fn found_in(sources: Seq<VerifiedSource>, count: nat, options: OptionsModel) -> Result<
    Seq<SourceSearchModel>,
    Seq<char>,
>
    decreases count,
{
    if count == 0 {
        Ok(Seq::empty())
    } else {
        match found_in(sources, (count - 1) as nat, options) {
            Err(fault) => Err(fault),
            Ok(found) => match source_search(sources[count - 1], options) {
                Err(fault) => Err(fault),
                Ok(model) => Ok(found.push(model)),
            },
        }
    }
}

/// How many lines were selected, but at most the largest value.
pub open spec fn selected_in(found: Seq<SourceSearchModel>) -> u64
    decreases found.len(),
{
    if found.len() == 0 {
        0
    } else {
        let rest = selected_in(found.drop_last());
        if rest + found.last().total_selected > u64::MAX {
            u64::MAX
        } else {
            (rest + found.last().total_selected) as u64
        }
    }
}

/// The outcome of a search through some sources.
pub open spec fn search_outcome(sources: Seq<VerifiedSource>, options: OptionsModel) -> Result<
    OutcomeModel,
    Seq<char>,
> {
    match found_in(sources, sources.len(), options) {
        Err(fault) => Err(fault),
        Ok(found) => if selected_in(found) == 0 {
            Ok(OutcomeModel::NoMatches(lit("No matches\n")))
        } else {
            match rendered_search(options.archive_ref, found) {
                Err(fault) => Err(fault),
                Ok(output) => Ok(OutcomeModel::Matches(output)),
            }
        },
    }
}

/// A result with its contents.
pub open spec fn outcome_result(result: Result<SearchOutcome, String>) -> Result<
    OutcomeModel,
    Seq<char>,
> {
    match result {
        Ok(outcome) => Ok(outcome@),
        Err(error) => Err(error@),
    }
}

proof fn lemma_found_fault_stays(
    sources: Seq<VerifiedSource>,
    count: nat,
    total: nat,
    options: OptionsModel,
)
    requires
        count <= total,
        found_in(sources, count, options) is Err,
    ensures
        found_in(sources, total, options) == found_in(sources, count, options),
    decreases total,
{
    if count < total {
        lemma_found_fault_stays(sources, count, (total - 1) as nat, options);
    }
}

/// Search the sources of one archived call.
///
/// # Errors
///
/// Returns an error for a source that cannot be searched and for output that is too large.
pub fn search_sources(
    options: &SearchOptions,
    matcher: &Matcher,
    sources: &Vec<VerifiedSource>,
) -> (result: Result<SearchOutcome, String>)
    requires
        matcher.language() == options@.language(),
    ensures
        outcome_result(result) == search_outcome(sources@, options@),
{
    let ghost model = options@;
    let mut results: Vec<SourceSearch> = Vec::new();
    let mut selected: u64 = 0;
    let mut i: usize = 0;
    assert(search_models(results@) =~= Seq::empty());
    while i < sources.len()
        invariant
            i <= sources.len(),
            model == options@,
            matcher.language() == model.language(),
            found_in(sources@, i as nat, model) == Ok::<Seq<SourceSearchModel>, Seq<char>>(
                search_models(results@),
            ),
            selected == selected_in(search_models(results@)),
        decreases sources.len() - i,
    {
        match search_source(&sources[i], matcher, options) {
            Err(error) => {
                proof {
                    lemma_found_fault_stays(sources@, i as nat + 1, sources@.len(), model);
                }
                return Err(error);
            },
            Ok(found) => {
                selected = selected.saturating_add(found.total_selected);
                let ghost earlier = search_models(results@);
                results.push(found);
                proof {
                    assert(search_models(results@) =~= earlier.push(found@));
                    assert(earlier.push(found@).drop_last() =~= earlier);
                }
            },
        }
        i += 1;
    }
    if selected == 0 {
        return Ok(SearchOutcome::NoMatches(copy("No matches\n".as_bytes())));
    }
    let output = render_search(options.archive_ref.as_str(), &results)?;
    Ok(SearchOutcome::Matches(output))
}

/// The arguments ask for help.
pub open spec fn asks_for_help(arguments: Seq<Seq<char>>) -> bool {
    arguments.len() == 1 && one_of(arguments[0], seq!["--help", "-h"])
}

/// Search the sources of the archived call that the arguments name. `sources` are those that
/// the archive holds for it, or why they cannot be had; they matter only once the arguments
/// are valid.
///
/// # Errors
///
/// Returns an error for invalid arguments, patterns and sources, and for output that is too
/// large.
pub fn search(arguments: &[String], sources: Result<Vec<VerifiedSource>, String>) -> (result: Result<
    SearchOutcome,
    String,
>)
    ensures
        asks_for_help(texts(arguments@)) ==> outcome_result(result) == Ok::<
            OutcomeModel,
            Seq<char>,
        >(OutcomeModel::Matches(lit(SEARCH_HELP))),
        !asks_for_help(texts(arguments@)) ==> match search_options(texts(arguments@)) {
            Err(fault) => outcome_result(result) == Err::<OutcomeModel, Seq<char>>(fault),
            Ok(options) => {
                ||| options.compiles() && outcome_result(result) == match sources {
                    Err(error) => Err(error@),
                    Ok(list) => search_outcome(list@, options),
                }
                ||| result matches Err(error) && error@ == refusal(options)
            },
        },
{
    let ghost words = texts(arguments@);
    if arguments.len() == 1 {
        assert(words[0] == arguments@[0]@);
        if is_one_of(arguments[0].as_str(), &["--help", "-h"]) {
            return Ok(SearchOutcome::Matches(copy(SEARCH_HELP.as_bytes())));
        }
    }
    let options = parse_search(arguments)?;
    let matcher = compile_matcher(&options)?;
    let list = sources?;
    search_sources(&options, &matcher, &list)
}

} // verus!
