//! Context around the changed lines of a diff.
use std::collections::VecDeque;

use vstd::prelude::*;

use super::bounded::{LineModel, LineView};
use super::diff::is_change;
use crate::bytes::starts_with;

verus! {

const CONTEXT_LINES: usize = 3;

/// The contents of some lines.
pub open spec fn line_models(lines: Seq<LineView>) -> Seq<LineModel> {
    lines.map_values(|line: LineView| line@)
}

/// The context lines that still wait for a change, and how many more follow the last change.
#[verifier::ext_equal]
pub struct DiffContext {
    pub pending: Seq<LineModel>,
    pub after_change: nat,
}

/// What becomes of one more line, and of the lines that waited.
#[verifier::ext_equal]
pub struct DiffStep {
    pub context: DiffContext,
    pub kept: Seq<LineModel>,
    pub omitted: Seq<LineModel>,
}

/// `value` without one trailing `\n`.
pub open spec fn without_newline(value: Seq<u8>) -> Seq<u8> {
    if value.len() > 0 && value.last() == 10 {
        value.drop_last()
    } else {
        value
    }
}

impl DiffContext {
    /// At most three lines wait, and none does while lines follow a change.
    pub open spec fn bounded(self) -> bool {
        &&& self.pending.len() <= 3
        &&& self.after_change <= 3
        &&& self.after_change > 0 ==> self.pending.len() == 0
    }

    /// What one more line does.
    pub open spec fn step(self, line: LineModel) -> DiffStep {
        let body = without_newline(line.prefix);
        if super::diff::changes_source(body) {
            DiffStep {
                context: DiffContext { pending: Seq::empty(), after_change: 3 },
                kept: self.pending.push(line),
                omitted: Seq::empty(),
            }
        } else if crate::bytes::has_prefix(body, crate::bytes::lit(" ")) {
            if self.after_change > 0 {
                DiffStep {
                    context: DiffContext {
                        after_change: (self.after_change - 1) as nat,
                        ..self
                    },
                    kept: seq![line],
                    omitted: Seq::empty(),
                }
            } else if self.pending.len() == 3 {
                DiffStep {
                    context: DiffContext {
                        pending: self.pending.drop_first().push(line),
                        ..self
                    },
                    kept: Seq::empty(),
                    omitted: seq![self.pending[0]],
                }
            } else {
                DiffStep {
                    context: DiffContext { pending: self.pending.push(line), ..self },
                    kept: Seq::empty(),
                    omitted: Seq::empty(),
                }
            }
        } else {
            DiffStep {
                context: DiffContext { pending: Seq::empty(), after_change: 0 },
                kept: seq![line],
                omitted: self.pending,
            }
        }
    }
}

/// Every line is kept, omitted or still waiting: none is lost, duplicated or reordered.
pub proof fn lemma_diff_step_accounts_for_every_line(context: DiffContext, line: LineModel)
    requires
        context.bounded(),
    ensures
        ({
            let step = context.step(line);
            step.omitted + step.kept + step.context.pending == context.pending.push(line)
        }),
{
    let step = context.step(line);
    assert(step.omitted + step.kept + step.context.pending =~= context.pending.push(line));
}

/// Sorts the lines of a diff into kept and omitted ones.
#[derive(Debug)]
pub struct GitDiffState {
    pending_context: VecDeque<LineView>,
    after_change: usize,
}

impl View for GitDiffState {
    type V = DiffContext;

    closed spec fn view(&self) -> DiffContext {
        DiffContext {
            pending: line_models(self.pending_context@),
            after_change: self.after_change as nat,
        }
    }
}

impl Default for GitDiffState {
    fn default() -> (state: Self)
        ensures
            state@ == (DiffContext { pending: Seq::empty(), after_change: 0 }),
            state@.bounded(),
    {
        let state = GitDiffState { pending_context: VecDeque::new(), after_change: 0 };
        assert(state@.pending =~= Seq::empty());
        state
    }
}

/// Move all of `from` to the end of `to`.
fn drain(from: &mut VecDeque<LineView>, to: &mut Vec<LineView>)
    ensures
        final(from)@.len() == 0,
        line_models(final(to)@) == line_models(old(to)@) + line_models(old(from)@),
{
    let ghost all = from@;
    let ghost before = to@;
    let ghost mut taken: int = 0;
    assert(line_models(before) + line_models(all.take(0)) =~= line_models(before));
    assert(all.skip(0) =~= all);
    while from.len() > 0
        invariant
            0 <= taken <= all.len(),
            from@ == all.skip(taken),
            line_models(to@) == line_models(before) + line_models(all.take(taken)),
        decreases from@.len(),
    {
        if let Some(line) = from.pop_front() {
            let ghost so_far = to@;
            to.push(line);
            proof {
                assert(line_models(to@) =~= line_models(so_far).push(line@));
                assert(all.take(taken + 1) =~= all.take(taken).push(all[taken]));
                assert(line_models(all.take(taken + 1)) =~= line_models(
                    all.take(taken),
                ).push(line@));
                taken = taken + 1;
                assert(line_models(to@) =~= line_models(before) + line_models(
                    all.take(taken),
                ));
            }
        }
    }
    assert(all.take(taken) =~= all);
}

impl GitDiffState {
    /// Take one more line; lines whose fate is settled join `kept` or `omitted`.
    pub fn push(&mut self, line: LineView, kept: &mut Vec<LineView>, omitted: &mut Vec<LineView>)
        requires
            old(self)@.bounded(),
        ensures
            final(self)@ == old(self)@.step(line@).context,
            final(self)@.bounded(),
            line_models(final(kept)@) == line_models(old(kept)@) + old(self)@.step(line@).kept,
            line_models(final(omitted)@) == line_models(old(omitted)@) + old(self)@.step(
                line@,
            ).omitted,
    {
        let ghost before = self@;
        let ghost kept_before = line_models(kept@);
        let ghost omitted_before = line_models(omitted@);
        let ghost model = line@;
        let ghost step = before.step(model);
        let bytes: &[u8] = line.prefix.as_slice();
        let body: &[u8] = if bytes.len() > 0 && bytes[bytes.len() - 1] == 10 {
            &bytes[0..bytes.len() - 1]
        } else {
            bytes
        };
        assert(body@ =~= without_newline(line@.prefix));
        if is_change(body) {
            drain(&mut self.pending_context, kept);
            let ghost drained = kept@;
            kept.push(line);
            assert(line_models(kept@) =~= line_models(drained).push(model));
            self.after_change = CONTEXT_LINES;
        } else if starts_with(body, " ".as_bytes()) {
            if self.after_change > 0 {
                let ghost drained = kept@;
                kept.push(line);
                assert(line_models(kept@) =~= line_models(drained).push(model));
                self.after_change = self.after_change - 1;
            } else {
                if self.pending_context.len() == CONTEXT_LINES {
                    if let Some(oldest) = self.pending_context.pop_front() {
                        let ghost drained = omitted@;
                        omitted.push(oldest);
                        assert(line_models(omitted@) =~= line_models(drained).push(oldest@));
                    }
                }
                self.pending_context.push_back(line);
            }
        } else {
            drain(&mut self.pending_context, omitted);
            let ghost drained = kept@;
            kept.push(line);
            assert(line_models(kept@) =~= line_models(drained).push(model));
            self.after_change = 0;
        }
        assert(self@.pending =~= step.context.pending);
        assert(line_models(kept@) =~= kept_before + step.kept);
        assert(line_models(omitted@) =~= omitted_before + step.omitted);
    }

    /// End the diff: the lines that still wait are kept.
    pub fn finish(self, kept: &mut Vec<LineView>)
        ensures
            line_models(final(kept)@) == line_models(old(kept)@) + self@.pending,
    {
        let mut pending = self.pending_context;
        drain(&mut pending, kept);
    }
}

} // verus!
