//! One run of a machine: its mutable state and the step and run operations.

use crate::machine::{Transition, TuringMachine, UnknownSymbolError};
use crate::model::{
    config_wf, initial_config, lemma_encode_char_in_range, lemma_step_preserves_wf,
    lemma_step_tape_monotonic, step_config, step_fault, steps, tape_view, ClockSpec, ConfigSpec,
    MachineSpec,
};
use vstd::prelude::*;

verus! {

/// Status of a run. `Executing` is the only non-terminal status: once any
/// other status is reached, stepping is a no-op. `Timeout` and `Spaceout`
/// are ordinary outcomes (the budget ran out), not errors.
#[derive(Debug, PartialEq, Eq, Structural)]
pub enum TMStatus {
    Executing,
    Accept,
    Reject,
    Timeout,
    Spaceout,
}

impl Default for TMStatus {
    /// A fresh run is executing.
    fn default() -> (r: Self)
        ensures
            r == TMStatus::Executing,
    {
        TMStatus::Executing
    }
}

/// The resource clock of a run: steps taken and current tape length, each
/// checked against an optional limit.
#[derive(Debug)]
pub struct TMClock {
    pub time_limit: Option<usize>,
    pub time: usize,
    pub space_limit: Option<usize>,
    pub space: usize,
}

impl Default for TMClock {
    /// An unlimited clock before any step, over the one-cell seeded tape.
    fn default() -> (r: Self)
        ensures
            r.time_limit is None,
            r.time == 0,
            r.space_limit is None,
            r.space == 1,
    {
        TMClock { time_limit: None, time: 0, space_limit: None, space: 1 }
    }
}

/// The fatal engine fault: the run's arithmetic outgrew the address space,
/// because a rightward move's target cell cannot be addressed or because the
/// step counter cannot record one more attempt. It is surfaced loudly rather
/// than clamped, and never arises from a well-formed table on realistic
/// inputs.
#[derive(Debug, PartialEq, Eq)]
pub struct HeadOverflowFault;

/// One run instance: it borrows its machine definition and owns its tape
/// and clock exclusively. Mutated only by stepping; immutable once the
/// status leaves `Executing`.
#[derive(Debug)]
pub struct TMExecution<'a> {
    pub machine: &'a TuringMachine,
    pub current_state: usize,
    pub head_position: usize,
    pub tape: Vec<usize>,
    pub status: TMStatus,
    pub clock: TMClock,
}

/// The clock's limits as model values.
pub open spec fn limit_view(l: Option<usize>) -> Option<int> {
    match l {
        Some(x) => Some(x as int),
        None => None,
    }
}

impl<'a> View for TMExecution<'a> {
    type V = ConfigSpec;

    open spec fn view(&self) -> ConfigSpec {
        ConfigSpec {
            current_state: self.current_state as int,
            head_position: self.head_position as int,
            tape: tape_view(self.tape@),
            status: self.status,
            clock: ClockSpec {
                time: self.clock.time as int,
                time_limit: limit_view(self.clock.time_limit),
                space: self.clock.space as int,
                space_limit: limit_view(self.clock.space_limit),
            },
        }
    }
}

impl<'a> TMExecution<'a> {
    /// The machine is well formed and the run's state is consistent with it.
    pub open spec fn wf(self) -> bool {
        &&& self.machine@.wf()
        &&& config_wf(self.machine@, self@)
    }

    /// Starts a run of `machine` on `word` under the optional
    /// `(time, space)` limits in `limits`: the word is encoded onto a fresh
    /// tape, the head rests on the left-end marker, and the clock counts the
    /// seeded tape as the space already used. Fails exactly when the word
    /// has a character in neither alphabet, reporting the first such
    /// character; no execution is produced then.
    pub fn start(
        machine: &'a TuringMachine,
        word: &String,
        limits: (Option<usize>, Option<usize>),
    ) -> (r: Result<TMExecution<'a>, UnknownSymbolError>)
        requires
            machine.wf(),
        ensures
            r is Ok <==> machine@.word_ok(word@),
            r matches Ok(e) ==> {
                &&& e.wf()
                &&& e.machine == machine
                &&& e@ == initial_config(
                    machine@,
                    word@,
                    limit_view(limits.0),
                    limit_view(limits.1),
                )
            },
            r matches Err(e) ==> e.0 == word@[machine@.first_unknown(word@)],
    {
        let tape = match machine.encode(word) {
            Ok(t) => t,
            Err(e) => {
                return Err(e);
            },
        };
        let space = tape.len();
        let e = TMExecution {
            machine,
            current_state: machine.start_state,
            head_position: 0,
            status: TMStatus::Executing,
            clock: TMClock { time: 0, time_limit: limits.0, space, space_limit: limits.1 },
            tape,
        };
        proof {
            let m = machine@;
            let cfg = initial_config(m, word@, limit_view(limits.0), limit_view(limits.1));
            assert(e@.tape == m.initial_tape(word@));
            assert(e@ =~= cfg);
            assert forall|i: int| 0 <= i < e@.tape.len() implies 0 <= #[trigger] e@.tape[i]
                < m.combined() by {
                if i == 0 {
                    assert(e@.tape[0] == 1);
                } else {
                    assert(e@.tape[i] == m.encoded_word(word@)[i - 1]);
                    assert(m.encode_char(word@[i - 1]) is Some);
                    lemma_encode_char_in_range(m, word@[i - 1]);
                }
            }
            assert(config_wf(m, e@));
        }
        Ok(e)
    }

    /// Advances the run by one step, exactly as [`step_config`] describes:
    /// a no-op on a terminal status; otherwise the step counter advances
    /// (the budget pays for the attempt) and the run freezes with `Timeout`
    /// at the limit, the transition not applied. Else the transition for the
    /// symbol under the head is applied: the write lands on the old head
    /// cell, and the tape grows rightward to cover the move target. When it
    /// grew, the space budget is checked, before the terminal check (so
    /// exhausting the space budget on the terminal step reports `Spaceout`);
    /// a step that ends in `Accept` or `Reject` leaves the head where it
    /// was.
    ///
    /// A step whose arithmetic outgrows the address space — a rightward move
    /// whose target cell cannot be addressed, or a step counter that cannot
    /// record one more attempt — is the fatal [`HeadOverflowFault`]; it is
    /// returned with the run left entirely unchanged, so the step is atomic.
    pub fn step(&mut self) -> (r: Result<(), HeadOverflowFault>)
        requires
            old(self).wf(),
        ensures
            final(self).wf(),
            final(self).machine == old(self).machine,
            r is Err <==> step_fault(old(self).machine@, old(self)@),
            r is Err ==> *final(self) == *old(self),
            r is Ok ==> final(self)@ == step_config(old(self).machine@, old(self)@),
            old(self).status != TMStatus::Executing ==> *final(self) == *old(self),
            final(self)@.tape.len() >= old(self)@.tape.len(),
            final(self).status == TMStatus::Executing ==> final(self)@.head_position < final(self)@.tape.len(),
    {
        match self.status {
            TMStatus::Executing => (),
            _ => {
                return Ok(());
            },
        }
        let ghost m: MachineSpec = self.machine@;
        let ghost pre: ConfigSpec = self@;
        proof {
            lemma_step_preserves_wf(m, pre);
            lemma_step_tape_monotonic(m, pre);
        }

        if self.clock.time == usize::MAX {
            return Err(HeadOverflowFault);
        }
        let new_time: usize = self.clock.time + 1;
        if let Some(limit) = self.clock.time_limit {
            if new_time >= limit {
                self.clock.time = new_time;
                self.status = TMStatus::Timeout;
                proof {
                    assert(self@ =~= step_config(m, pre));
                }
                return Ok(());
            }
        }

        let mach = self.machine;
        let read_symbol: usize = self.tape[self.head_position];
        let t: Transition = mach.transitions[self.current_state][read_symbol];
        proof {
            assert(m.transitions[pre.current_state] == crate::machine::row_view(
                mach.transitions@[pre.current_state]@,
            ));
            assert(m.transitions[pre.current_state][pre.tape[pre.head_position]] == (
                t.0 as int,
                t.1 as int,
                t.2 as int,
            ));
        }

        let offset = t.2;
        let new_head: usize = if offset >= 0 {
            let o = offset as usize;
            if self.head_position >= usize::MAX - o {
                return Err(HeadOverflowFault);
            }
            self.head_position + o
        } else {
            let magnitude: usize = if offset == i32::MIN {
                0x8000_0000usize
            } else {
                (-offset) as usize
            };
            if self.head_position >= magnitude {
                self.head_position - magnitude
            } else {
                0
            }
        };
        proof {
            assert(new_head as int == crate::model::move_target(pre.head_position, t.2 as int));
        }

        self.clock.time = new_time;
        let grew = new_head >= self.tape.len();
        self.tape.set(self.head_position, t.1);
        self.current_state = t.0;
        let ghost written: Seq<int> = tape_view(self.tape@);
        let ghost gtape: Seq<int> = crate::model::grown_tape(written, new_head as int + 1);
        proof {
            assert(written =~= pre.tape.update(pre.head_position, t.1 as int));
        }
        while new_head >= self.tape.len()
            invariant
                self.machine == old(self).machine,
                self.current_state == t.0,
                self.head_position == old(self).head_position,
                self.status == TMStatus::Executing,
                self.clock.time == new_time,
                self.clock.time_limit == old(self).clock.time_limit,
                self.clock.space == old(self).clock.space,
                self.clock.space_limit == old(self).clock.space_limit,
                written == pre.tape.update(pre.head_position, t.1 as int),
                gtape == crate::model::grown_tape(written, new_head as int + 1),
                written.len() == pre.tape.len(),
                pre.head_position < pre.tape.len(),
                written.len() <= self.tape@.len() <= gtape.len(),
                forall|i: int| 0 <= i < self.tape@.len() ==> tape_view(self.tape@)[i] == gtape[i],
            decreases gtape.len() - self.tape@.len(),
        {
            let ghost before = self.tape@;
            self.tape.push(0);
            proof {
                assert(before.len() <= new_head);
                assert(new_head as int + 1 <= gtape.len());
                assert forall|i: int| 0 <= i < self.tape@.len() implies tape_view(self.tape@)[i]
                    == gtape[i] by {
                    if i < before.len() {
                        assert(self.tape@[i] == before[i]);
                        assert(tape_view(before)[i] == gtape[i]);
                    } else {
                        assert(self.tape@[i] == 0usize);
                        assert(written.len() <= i);
                        assert(gtape[i] == 0);
                    }
                }
            }
        }
        proof {
            assert(tape_view(self.tape@) =~= gtape);
        }
        self.clock.space = self.tape.len();

        if grew {
            if let Some(limit) = self.clock.space_limit {
                if self.clock.space >= limit {
                    self.status = TMStatus::Spaceout;
                    self.head_position = new_head;
                    proof {
                        assert(self@ =~= step_config(m, pre));
                    }
                    return Ok(());
                }
            }
        }
        if self.current_state == mach.accept_state {
            self.status = TMStatus::Accept;
            proof {
                assert(self@ =~= step_config(m, pre));
            }
            return Ok(());
        }
        if self.current_state == mach.reject_state {
            self.status = TMStatus::Reject;
            proof {
                assert(self@ =~= step_config(m, pre));
            }
            return Ok(());
        }
        self.head_position = new_head;
        proof {
            assert(self@ =~= step_config(m, pre));
        }
        Ok(())
    }

    /// Steps the run until its status leaves `Executing`: the result is a
    /// configuration reached from the start by iterating [`step_config`].
    /// Unbounded: a run without limits on a non-halting machine never
    /// returns, which is ordinary machine semantics. The fatal addressing
    /// fault is propagated, the run left at the faulting configuration.
    pub fn run(&mut self) -> (r: Result<(), HeadOverflowFault>)
        requires
            old(self).wf(),
        ensures
            final(self).wf(),
            final(self).machine == old(self).machine,
            exists|n: nat| final(self)@ == steps(old(self).machine@, old(self)@, n),
            r is Ok ==> final(self).status != TMStatus::Executing,
            r is Err ==> final(self).status == TMStatus::Executing && step_fault(
                final(self).machine@,
                final(self)@,
            ),
            final(self)@.tape.len() >= old(self)@.tape.len(),
    {
        let ghost m: MachineSpec = old(self).machine@;
        let ghost first: ConfigSpec = old(self)@;
        proof {
            assert(self@ == steps(m, first, 0));
        }
        while self.status == TMStatus::Executing
            invariant
                self.wf(),
                self.machine == old(self).machine,
                m == old(self).machine@,
                first == old(self)@,
                exists|n: nat| self@ == steps(m, first, n),
                self@.tape.len() >= first.tape.len(),
            decreases usize::MAX - self.clock.time,
        {
            let ghost cur: ConfigSpec = self@;
            let ghost n0: nat = choose|n: nat| cur == steps(m, first, n);
            match self.step() {
                Ok(()) => {
                    proof {
                        assert(steps(m, first, n0 + 1) == step_config(m, steps(m, first, n0)));
                        assert(self@ == steps(m, first, n0 + 1));
                    }
                },
                Err(fault) => {
                    return Err(fault);
                },
            }
        }
        Ok(())
    }

    /// Runs the machine to completion; see [`TMExecution::run`].
    pub fn compute(&mut self) -> (r: Result<(), HeadOverflowFault>)
        requires
            old(self).wf(),
        ensures
            final(self).wf(),
            final(self).machine == old(self).machine,
            exists|n: nat| final(self)@ == steps(old(self).machine@, old(self)@, n),
            r is Ok ==> final(self).status != TMStatus::Executing,
            r is Err ==> final(self).status == TMStatus::Executing && step_fault(
                final(self).machine@,
                final(self)@,
            ),
            final(self)@.tape.len() >= old(self)@.tape.len(),
    {
        self.run()
    }
}

impl TuringMachine {
    /// Starts an unbounded run of this machine on `word`; see
    /// [`TMExecution::start`].
    pub fn compute<'a>(&'a self, word: &String) -> (r: Result<
        TMExecution<'a>,
        UnknownSymbolError,
    >)
        requires
            self.wf(),
        ensures
            r is Ok <==> self@.word_ok(word@),
            r matches Ok(e) ==> {
                &&& e.wf()
                &&& e.machine == self
                &&& e@ == initial_config(self@, word@, None, None)
            },
            r matches Err(e) ==> e.0 == word@[self@.first_unknown(word@)],
    {
        self.bounded_compute(word, (None, None))
    }

    /// Starts a run of this machine on `word` under the optional
    /// `(time, space)` limits; see [`TMExecution::start`].
    pub fn bounded_compute<'a>(
        &'a self,
        word: &String,
        limits: (Option<usize>, Option<usize>),
    ) -> (r: Result<TMExecution<'a>, UnknownSymbolError>)
        requires
            self.wf(),
        ensures
            r is Ok <==> self@.word_ok(word@),
            r matches Ok(e) ==> {
                &&& e.wf()
                &&& e.machine == self
                &&& e@ == initial_config(self@, word@, limit_view(limits.0), limit_view(limits.1))
            },
            r matches Err(e) ==> e.0 == word@[self@.first_unknown(word@)],
    {
        TMExecution::start(self, word, limits)
    }
}

} // verus!
