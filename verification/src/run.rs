//! The run loop: drives the lines of a script through the per-line step,
//! applying the reporting policy. Interactively every error is reported and
//! the run goes on at the next line; under the batch policy any error is
//! fatal and no later line runs.

use vstd::prelude::*;
use crate::exec::{spec_step, step_line, LineOutcome, LineOutcomeV};
use crate::instr::ExecError;
use crate::machine::{Machine, MachineView, MEMORY_SIZE, NUM_REGISTERS};
use crate::scan::views_of;

verus! {

/// How a run ends: the halt token or end of input; a batch abort on an
/// unknown opcode; or any other error made fatal by the batch policy.
#[derive(Clone, Copy, PartialEq, Eq, Structural, Debug)]
pub enum Outcome {
    HaltedNormally,
    UnknownInstructionBatchAbort,
    FatalError(ExecError),
}

/// The mathematical result of a run: every printed line, every error
/// reported under the interactive policy, and the terminal outcome.
pub struct RunResultV {
    pub outputs: Seq<Seq<u8>>,
    pub reported: Seq<ExecError>,
    pub outcome: Outcome,
}

/// What a run hands back: printed lines in order, the errors reported on the
/// way (interactive policy only), and the terminal outcome.
pub struct RunResult {
    pub outputs: Vec<Vec<u8>>,
    pub reported: Vec<ExecError>,
    pub outcome: Outcome,
}

impl View for RunResult {
    type V = RunResultV;

    open spec fn view(&self) -> RunResultV {
        RunResultV {
            outputs: views_of(self.outputs@),
            reported: self.reported@,
            outcome: self.outcome,
        }
    }
}

/// The machine state every run begins with: registers and memory zeroed,
/// carry clear, no labels.
pub open spec fn init_machine() -> MachineView {
    MachineView {
        regs: Seq::new(NUM_REGISTERS as nat, |i: int| 0i32),
        mem: Seq::new(MEMORY_SIZE as nat, |i: int| 0i32),
        carry: 0,
        labels: Seq::empty(),
    }
}

/// The run from line `i` on: step each line in turn; collect printed lines;
/// stop normally on halt or end of input; on an error, stop fatally under the
/// batch policy (an unknown opcode gets its own outcome), or report it and go
/// on interactively.
pub open spec fn spec_run(m: MachineView, lines: Seq<Seq<u8>>, i: int, batch: bool) -> RunResultV
    decreases lines.len() - i when 0 <= i <= lines.len()
{
    if i >= lines.len() {
        RunResultV { outputs: Seq::empty(), reported: Seq::empty(), outcome: Outcome::HaltedNormally }
    } else {
        let (m1, o) = spec_step(m, lines[i]);
        match o {
            LineOutcomeV::Continue => spec_run(m1, lines, i + 1, batch),
            LineOutcomeV::Emitted(out) => {
                let rest = spec_run(m1, lines, i + 1, batch);
                RunResultV { outputs: seq![out] + rest.outputs, ..rest }
            },
            LineOutcomeV::Halted => RunResultV {
                outputs: Seq::empty(),
                reported: Seq::empty(),
                outcome: Outcome::HaltedNormally,
            },
            LineOutcomeV::Failed(e) => {
                if batch {
                    RunResultV {
                        outputs: Seq::empty(),
                        reported: Seq::empty(),
                        outcome: if e == ExecError::UnknownInstruction {
                            Outcome::UnknownInstructionBatchAbort
                        } else {
                            Outcome::FatalError(e)
                        },
                    }
                } else {
                    let rest = spec_run(m1, lines, i + 1, batch);
                    RunResultV { reported: seq![e] + rest.reported, ..rest }
                }
            },
        }
    }
}

/// A partial run's collected outputs and reports, put before the rest.
pub open spec fn with_collected(
    outs: Seq<Seq<u8>>,
    reps: Seq<ExecError>,
    rest: RunResultV,
) -> RunResultV {
    RunResultV { outputs: outs + rest.outputs, reported: reps + rest.reported, ..rest }
}

/// Runs a whole script on a fresh machine under the chosen policy.
#[verifier::rlimit(50)]
pub fn run_lines(lines: &Vec<Vec<u8>>, batch: bool) -> (r: RunResult)
    ensures
        r@ == spec_run(init_machine(), views_of(lines@), 0, batch),
{
    let mut m = Machine::new();
    let mut outputs: Vec<Vec<u8>> = Vec::new();
    let mut reported: Vec<ExecError> = Vec::new();
    let mut i: usize = 0;
    let ghost lv = views_of(lines@);
    proof {
        crate::instr::lemma_views_index(lines@);
        assert(m@ == init_machine());
        assert(views_of(outputs@) =~~= Seq::<Seq<u8>>::empty());
        assert(spec_run(init_machine(), lv, 0, batch) == with_collected(
            views_of(outputs@),
            reported@,
            spec_run(m@, lv, 0, batch),
        ));
    }
    while i < lines.len()
        invariant
            i <= lines@.len(),
            lv == views_of(lines@),
            lv.len() == lines@.len(),
            m@.wf(),
            spec_run(init_machine(), lv, 0, batch) == with_collected(
                views_of(outputs@),
                reported@,
                spec_run(m@, lv, i as int, batch),
            ),
        decreases lines@.len() - i,
    {
        proof {
            crate::instr::lemma_views_index(lines@);
        }
        let ghost m_pre = m@;
        let step = step_line(&mut m, lines[i].as_slice());
        proof {
            assert(lines@[i as int]@ == lv[i as int]);
        }
        match step {
            LineOutcome::Continue => {
                proof {
                    assert(spec_run(m_pre, lv, i as int, batch) == spec_run(
                        m@,
                        lv,
                        i + 1,
                        batch,
                    ));
                }
            },
            LineOutcome::Emitted(out) => {
                let ghost old_outputs = outputs@;
                let ghost rest = spec_run(m@, lv, i + 1, batch);
                outputs.push(out);
                proof {
                    assert(views_of(outputs@) =~~= views_of(old_outputs) + seq![out@]);
                    assert(spec_run(m_pre, lv, i as int, batch) == RunResultV {
                        outputs: seq![out@] + rest.outputs,
                        ..rest
                    });
                    assert((views_of(old_outputs) + seq![out@]) + rest.outputs
                        =~~= views_of(old_outputs) + (seq![out@] + rest.outputs));
                    assert(with_collected(views_of(outputs@), reported@, rest)
                        == with_collected(views_of(old_outputs), reported@, spec_run(m_pre, lv, i as int, batch)));
                }
            },
            LineOutcome::Halted => {
                let r = RunResult { outputs, reported, outcome: Outcome::HaltedNormally };
                proof {
                    assert(r@.outputs + Seq::<Seq<u8>>::empty() =~~= r@.outputs);
                    assert(r@.reported + Seq::<ExecError>::empty() =~= r@.reported);
                }
                return r;
            },
            LineOutcome::Failed(e) => {
                if batch {
                    let outcome = if e == ExecError::UnknownInstruction {
                        Outcome::UnknownInstructionBatchAbort
                    } else {
                        Outcome::FatalError(e)
                    };
                    let r = RunResult { outputs, reported, outcome };
                    proof {
                        assert(r@.outputs + Seq::<Seq<u8>>::empty() =~~= r@.outputs);
                        assert(r@.reported + Seq::<ExecError>::empty() =~= r@.reported);
                    }
                    return r;
                } else {
                    let ghost old_reported = reported@;
                    let ghost rest = spec_run(m@, lv, i + 1, batch);
                    reported.push(e);
                    proof {
                        assert(reported@ =~= old_reported + seq![e]);
                        assert(spec_run(m_pre, lv, i as int, batch) == RunResultV {
                            reported: seq![e] + rest.reported,
                            ..rest
                        });
                        assert(spec_run(m_pre, lv, i as int, batch) == RunResultV {
                            reported: seq![e] + rest.reported,
                            ..rest
                        });
                        assert((old_reported + seq![e]) + rest.reported =~= old_reported + (
                        seq![e] + rest.reported));
                        assert(with_collected(views_of(outputs@), reported@, rest)
                            == with_collected(views_of(outputs@), old_reported, spec_run(m_pre, lv, i as int, batch)));
                    }
                }
            },
        }
        i += 1;
    }
    let r = RunResult { outputs, reported, outcome: Outcome::HaltedNormally };
    proof {
        assert(r@.outputs + Seq::<Seq<u8>>::empty() =~~= r@.outputs);
        assert(r@.reported + Seq::<ExecError>::empty() =~= r@.reported);
    }
    r
}

} // verus!
