//! Verification of every record and program of an opened pack.
use vstd::prelude::*;

use super::compiled::{CompiledPack, PackModel, body_fault, listed_candidates};
use super::index::{ProgramEntry, ProgramModel};
use super::model::Rule;
use crate::digest::sha256;
use crate::text::{join2, join3, join5, list_contains, reports, texts};

verus! {

/// The bytes of a record and what they decode to.
#[derive(Debug)]
pub struct RecordBody {
    pub bytes: Vec<u8>,
    pub decoded: Result<Rule, String>,
}

/// What is wrong with the first `count` programs of the rule at `index`.
pub open spec fn coverage_fault(pack: PackModel, index: u32, rule: Rule, count: nat) -> Option<
    Seq<char>,
>
    decreases count,
{
    if count == 0 {
        None
    } else {
        match coverage_fault(pack, index, rule, (count - 1) as nat) {
            Some(fault) => Some(fault),
            None => {
                let program = rule.matcher.program@[count - 1]@;
                if !listed_candidates(pack.programs, program).contains(index) {
                    Some(
                        pack.path + ": rule "@ + rule.id@ + " is missing from program index "@
                            + program,
                    )
                } else {
                    None
                }
            },
        }
    }
}

/// What is wrong with the first `count` records.
pub open spec fn bodies_fault(pack: PackModel, bodies: Seq<RecordBody>, count: nat) -> Option<
    Seq<char>,
>
    decreases count,
{
    if count == 0 {
        None
    } else {
        let index = (count - 1) as u32;
        let body = bodies[count - 1];
        match bodies_fault(pack, bodies, (count - 1) as nat) {
            Some(fault) => Some(fault),
            None => if count - 1 > u32::MAX {
                Some("rule index does not fit u32"@)
            } else {
                match body_fault(pack, index, body.bytes@, body.decoded) {
                    Some(fault) => Some(fault),
                    None => coverage_fault(
                        pack,
                        index,
                        body.decoded->Ok_0,
                        body.decoded->Ok_0.matcher.program@.len(),
                    ),
                }
            },
        }
    }
}

/// What is wrong with the first `count` candidates of a program.
pub open spec fn candidates_fault(
    pack: PackModel,
    bodies: Seq<RecordBody>,
    entry: ProgramModel,
    count: nat,
) -> Option<Seq<char>>
    decreases count,
{
    if count == 0 {
        None
    } else {
        match candidates_fault(pack, bodies, entry, (count - 1) as nat) {
            Some(fault) => Some(fault),
            None => {
                let candidate = entry.candidates[count - 1];
                let body = bodies[candidate as int];
                if candidate >= pack.rules.len() {
                    Some(pack.path + ": program index references unknown rule"@)
                } else {
                    match body_fault(pack, candidate, body.bytes@, body.decoded) {
                        Some(fault) => Some(fault),
                        None => if !texts(body.decoded->Ok_0.matcher.program@).contains(
                            entry.program,
                        ) {
                            Some(
                                pack.path + ": program index disagrees with rule "@
                                    + body.decoded->Ok_0.id@,
                            )
                        } else {
                            None
                        },
                    }
                }
            },
        }
    }
}

/// What is wrong with the first `count` programs.
pub open spec fn programs_fault(pack: PackModel, bodies: Seq<RecordBody>, count: nat) -> Option<
    Seq<char>,
>
    decreases count,
{
    if count == 0 {
        None
    } else {
        match programs_fault(pack, bodies, (count - 1) as nat) {
            Some(fault) => Some(fault),
            None => candidates_fault(
                pack,
                bodies,
                pack.programs[count - 1],
                pack.programs[count - 1].candidates.len(),
            ),
        }
    }
}

/// What is wrong with a pack whose records hold `bodies` and whose file holds `bytes`.
pub open spec fn pack_fault(pack: PackModel, bodies: Seq<RecordBody>, bytes: Seq<u8>) -> Option<
    Seq<char>,
> {
    match bodies_fault(pack, bodies, pack.rules.len()) {
        Some(fault) => Some(fault),
        None => match programs_fault(pack, bodies, pack.programs.len()) {
            Some(fault) => Some(fault),
            None => if sha256(bytes) != pack.compiled_digest {
                Some(pack.path + ": compiled pack changed while loading"@)
            } else {
                None
            },
        },
    }
}

proof fn lemma_coverage_fault_stays(
    pack: PackModel,
    index: u32,
    rule: Rule,
    count: nat,
    total: nat,
)
    requires
        count <= total,
        coverage_fault(pack, index, rule, count) is Some,
    ensures
        coverage_fault(pack, index, rule, total) == coverage_fault(pack, index, rule, count),
    decreases total,
{
    if count < total {
        lemma_coverage_fault_stays(pack, index, rule, count, (total - 1) as nat);
    }
}

proof fn lemma_bodies_fault_stays(
    pack: PackModel,
    bodies: Seq<RecordBody>,
    count: nat,
    total: nat,
)
    requires
        count <= total,
        bodies_fault(pack, bodies, count) is Some,
    ensures
        bodies_fault(pack, bodies, total) == bodies_fault(pack, bodies, count),
    decreases total,
{
    if count < total {
        lemma_bodies_fault_stays(pack, bodies, count, (total - 1) as nat);
    }
}

proof fn lemma_candidates_fault_stays(
    pack: PackModel,
    bodies: Seq<RecordBody>,
    entry: ProgramModel,
    count: nat,
    total: nat,
)
    requires
        count <= total,
        candidates_fault(pack, bodies, entry, count) is Some,
    ensures
        candidates_fault(pack, bodies, entry, total) == candidates_fault(
            pack,
            bodies,
            entry,
            count,
        ),
    decreases total,
{
    if count < total {
        lemma_candidates_fault_stays(pack, bodies, entry, count, (total - 1) as nat);
    }
}

proof fn lemma_programs_fault_stays(
    pack: PackModel,
    bodies: Seq<RecordBody>,
    count: nat,
    total: nat,
)
    requires
        count <= total,
        programs_fault(pack, bodies, count) is Some,
    ensures
        programs_fault(pack, bodies, total) == programs_fault(pack, bodies, count),
    decreases total,
{
    if count < total {
        lemma_programs_fault_stays(pack, bodies, count, (total - 1) as nat);
    }
}

fn contains_number(values: &[u32], value: u32) -> (found: bool)
    ensures
        found == values@.contains(value),
{
    let mut i: usize = 0;
    while i < values.len()
        invariant
            i <= values.len(),
            forall|j: int| 0 <= j < i ==> #[trigger] values@[j] != value,
        decreases values.len() - i,
    {
        if values[i] == value {
            return true;
        }
        i += 1;
    }
    false
}

impl CompiledPack {
    fn verify_coverage(&self, index: u32, rule: &Rule) -> (result: Result<(), String>)
        ensures
            reports(
                result,
                coverage_fault(self@, index, *rule, rule.matcher.program@.len()),
            ),
    {
        let mut i: usize = 0;
        while i < rule.matcher.program.len()
            invariant
                i <= rule.matcher.program.len(),
                coverage_fault(self@, index, *rule, i as nat) is None,
            decreases rule.matcher.program.len() - i,
        {
            let program = rule.matcher.program[i].as_str();
            if !contains_number(self.candidate_indices(program), index) {
                proof {
                    lemma_coverage_fault_stays(
                        self@,
                        index,
                        *rule,
                        i as nat + 1,
                        rule.matcher.program@.len(),
                    );
                }
                return Err(
                    join5(
                        self.path.as_str(),
                        ": rule ",
                        rule.id.as_str(),
                        " is missing from program index ",
                        program,
                    ),
                );
            }
            i += 1;
        }
        Ok(())
    }

    fn verify_candidates(&self, bodies: &Vec<RecordBody>, entry: &ProgramEntry) -> (result: Result<
        (),
        String,
    >)
        requires
            bodies@.len() == self.rules@.len(),
        ensures
            reports(
                result,
                candidates_fault(self@, bodies@, entry@, entry.candidates@.len()),
            ),
    {
        let mut i: usize = 0;
        while i < entry.candidates.len()
            invariant
                i <= entry.candidates.len(),
                bodies@.len() == self.rules@.len(),
                candidates_fault(self@, bodies@, entry@, i as nat) is None,
            decreases entry.candidates.len() - i,
        {
            let candidate: u32 = entry.candidates[i];
            let ghost total = entry.candidates@.len();
            if candidate as usize >= self.rules.len() {
                proof {
                    lemma_candidates_fault_stays(self@, bodies@, entry@, i as nat + 1, total);
                }
                return Err(
                    join2(self.path.as_str(), ": program index references unknown rule"),
                );
            }
            let body = &bodies[candidate as usize];
            if let Err(error) = self.check_record(candidate, body.bytes.as_slice(), &body.decoded) {
                proof {
                    lemma_candidates_fault_stays(self@, bodies@, entry@, i as nat + 1, total);
                }
                return Err(error);
            }
            if let Ok(rule) = &body.decoded {
                if !list_contains(rule.matcher.program.as_slice(), entry.program.as_str()) {
                    proof {
                        lemma_candidates_fault_stays(self@, bodies@, entry@, i as nat + 1, total);
                    }
                    return Err(
                        join3(
                            self.path.as_str(),
                            ": program index disagrees with rule ",
                            rule.id.as_str(),
                        ),
                    );
                }
            }
            i += 1;
        }
        Ok(())
    }

    /// Verify every record and every program-to-rule reference of the pack. `bodies` holds the
    /// bytes of each record and what they decode to, and `bytes` the file as it is now.
    ///
    /// # Errors
    ///
    /// Returns an error when any record or index relationship is invalid, or when the file has
    /// changed.
    pub fn verify_all(&self, bodies: &Vec<RecordBody>, bytes: &[u8]) -> (result: Result<(), String>)
        requires
            bodies@.len() == self.rules@.len(),
        ensures
            reports(result, pack_fault(self@, bodies@, bytes@)),
    {
        let ghost pack = self@;
        let mut i: usize = 0;
        while i < self.rules.len()
            invariant
                i <= self.rules.len(),
                pack == self@,
                bodies@.len() == self.rules@.len(),
                bodies_fault(pack, bodies@, i as nat) is None,
            decreases self.rules.len() - i,
        {
            if i > 0xffff_ffff {
                proof {
                    lemma_bodies_fault_stays(pack, bodies@, i as nat + 1, pack.rules.len());
                }
                return Err("rule index does not fit u32".to_owned());
            }
            let body = &bodies[i];
            let index: u32 = i as u32;
            if let Err(error) = self.check_record(index, body.bytes.as_slice(), &body.decoded) {
                proof {
                    lemma_bodies_fault_stays(pack, bodies@, i as nat + 1, pack.rules.len());
                }
                return Err(error);
            }
            if let Ok(rule) = &body.decoded {
                if let Err(error) = self.verify_coverage(index, rule) {
                    proof {
                        lemma_bodies_fault_stays(pack, bodies@, i as nat + 1, pack.rules.len());
                    }
                    return Err(error);
                }
            }
            i += 1;
        }
        let mut j: usize = 0;
        while j < self.programs.len()
            invariant
                j <= self.programs.len(),
                pack == self@,
                bodies@.len() == self.rules@.len(),
                bodies_fault(pack, bodies@, pack.rules.len()) is None,
                programs_fault(pack, bodies@, j as nat) is None,
            decreases self.programs.len() - j,
        {
            assert(pack.programs[j as int] == self.programs@[j as int]@);
            if let Err(error) = self.verify_candidates(bodies, &self.programs[j]) {
                proof {
                    lemma_programs_fault_stays(pack, bodies@, j as nat + 1, pack.programs.len());
                }
                return Err(error);
            }
            j += 1;
        }
        self.verify_compiled_digest(bytes)
    }
}

} // verus!
