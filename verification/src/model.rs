//! Mathematical model of machines and executions.
//!
//! Every contract of the executable code is stated against these types: a
//! machine is a table of `(next state, write symbol, move offset)` triples
//! over a combined alphabet, and a configuration is the full mutable state of
//! one run. [`step_config`] is the single source of truth for what one step
//! of the interpreter does.

use crate::execution::TMStatus;
use vstd::prelude::*;

verus! {

/// A machine definition, abstracted to sequences and unbounded integers.
///
/// Symbols are identified by their index in the combined alphabet: the
/// tape-control symbols occupy indices `[0, C)` and the language symbols
/// `[C, C + L)`, where `C` and `L` are the lengths of the two symbol lists.
/// By convention index `0` is the blank and index `1` the left-end marker.
#[verifier::ext_equal]
pub struct MachineSpec {
    pub states: Seq<Seq<char>>,
    pub tape_symbols: Seq<Seq<char>>,
    pub language_symbols: Seq<Seq<char>>,
    pub transitions: Seq<Seq<(int, int, int)>>,
    pub start_state: int,
    pub accept_state: int,
    pub reject_state: int,
}

/// The resource clock of a configuration: elapsed steps and current tape
/// length, each with an optional limit.
#[verifier::ext_equal]
pub struct ClockSpec {
    pub time: int,
    pub time_limit: Option<int>,
    pub space: int,
    pub space_limit: Option<int>,
}

/// One run's full state: control state, head, tape contents, status, clock.
#[verifier::ext_equal]
pub struct ConfigSpec {
    pub current_state: int,
    pub head_position: int,
    pub tape: Seq<int>,
    pub status: TMStatus,
    pub clock: ClockSpec,
}

impl MachineSpec {
    /// Size of the combined alphabet.
    pub open spec fn combined(self) -> int {
        self.tape_symbols.len() as int + self.language_symbols.len() as int
    }

    /// A transition row is complete (one entry per combined symbol) and each
    /// entry names a valid state and a valid write symbol.
    pub open spec fn row_wf(self, row: Seq<(int, int, int)>) -> bool {
        &&& row.len() == self.combined()
        &&& forall|j: int|
            0 <= j < row.len() ==> {
                let t = #[trigger] row[j];
                &&& 0 <= t.0 < self.states.len()
                &&& 0 <= t.1 < self.combined()
            }
    }

    /// Well-formedness of a machine definition: the three distinguished
    /// states are valid, accept and reject are distinct terminal states, the
    /// start state is neither, and every non-terminal state has a complete
    /// transition row. The combined alphabet must at least contain the blank
    /// and the left-end marker, and must be indexable by `usize`.
    pub open spec fn wf(self) -> bool {
        &&& 0 < self.states.len()
        &&& 2 <= self.combined() <= usize::MAX
        &&& 0 <= self.start_state < self.states.len()
        &&& 0 <= self.accept_state < self.states.len()
        &&& 0 <= self.reject_state < self.states.len()
        &&& self.accept_state != self.reject_state
        &&& self.start_state != self.accept_state
        &&& self.start_state != self.reject_state
        &&& forall|s: int|
            0 <= s < self.states.len() && s != self.accept_state && s != self.reject_state
                ==> s < self.transitions.len() && self.row_wf(#[trigger] self.transitions[s])
    }
}

/// A symbol label stands for the character `c` exactly when it is the
/// one-character string of `c`.
pub open spec fn label_matches(label: Seq<char>, c: char) -> bool {
    label.len() == 1 && label[0] == c
}

/// Index of the first label in `labels` that stands for `c`, if any.
pub open spec fn find_label(labels: Seq<Seq<char>>, c: char) -> Option<int>
    decreases labels.len(),
{
    if labels.len() == 0 {
        None
    } else if label_matches(labels[0], c) {
        Some(0int)
    } else {
        match find_label(labels.drop_first(), c) {
            None => None,
            Some(i) => Some(i + 1),
        }
    }
}

/// `find_label` returns the first matching index: a match at `i` with no
/// match before it is found at `i`.
pub proof fn lemma_find_label_at(labels: Seq<Seq<char>>, c: char, i: int)
    requires
        0 <= i < labels.len(),
        label_matches(labels[i], c),
        forall|j: int| 0 <= j < i ==> !label_matches(#[trigger] labels[j], c),
    ensures
        find_label(labels, c) == Some(i),
    decreases i,
{
    if i == 0 {
    } else {
        assert(!label_matches(labels[0], c));
        assert(labels.drop_first()[i - 1] == labels[i]);
        assert forall|j: int| 0 <= j < i - 1 implies !label_matches(
            #[trigger] labels.drop_first()[j],
            c,
        ) by {
            assert(labels.drop_first()[j] == labels[j + 1]);
        }
        lemma_find_label_at(labels.drop_first(), c, i - 1);
    }
}

/// `find_label` finds nothing when no label matches.
pub proof fn lemma_find_label_none(labels: Seq<Seq<char>>, c: char)
    requires
        forall|j: int| 0 <= j < labels.len() ==> !label_matches(#[trigger] labels[j], c),
    ensures
        find_label(labels, c) is None,
    decreases labels.len(),
{
    if labels.len() == 0 {
    } else {
        assert forall|j: int| 0 <= j < labels.drop_first().len() implies !label_matches(
            #[trigger] labels.drop_first()[j],
            c,
        ) by {
            assert(labels.drop_first()[j] == labels[j + 1]);
        }
        lemma_find_label_none(labels.drop_first(), c);
    }
}

/// What a `find_label` result means: a found index is in range, matches,
/// and is the least such; a miss means no label matches.
pub proof fn lemma_find_label_props(labels: Seq<Seq<char>>, c: char)
    ensures
        match find_label(labels, c) {
            Some(i) => 0 <= i < labels.len() && label_matches(labels[i], c) && forall|j: int|
                0 <= j < i ==> !label_matches(#[trigger] labels[j], c),
            None => forall|j: int| 0 <= j < labels.len() ==> !label_matches(
                #[trigger] labels[j],
                c,
            ),
        },
    decreases labels.len(),
{
    if labels.len() == 0 {
    } else if label_matches(labels[0], c) {
    } else {
        lemma_find_label_props(labels.drop_first(), c);
        assert forall|j: int| 0 <= j < labels.len() - 1 implies labels.drop_first()[j] == labels[j
            + 1] by {}
        match find_label(labels.drop_first(), c) {
            Some(i) => {
                assert forall|j: int| 0 <= j < i + 1 implies !label_matches(
                    #[trigger] labels[j],
                    c,
                ) by {
                    if j > 0 {
                        assert(labels[j] == labels.drop_first()[j - 1]);
                    }
                }
            },
            None => {
                assert forall|j: int| 0 <= j < labels.len() implies !label_matches(
                    #[trigger] labels[j],
                    c,
                ) by {
                    if j > 0 {
                        assert(labels[j] == labels.drop_first()[j - 1]);
                    }
                }
            },
        }
    }
}

impl MachineSpec {
    /// Combined-alphabet index a character encodes to: the language alphabet
    /// is consulted first, then the tape-control alphabet.
    pub open spec fn encode_char(self, c: char) -> Option<int> {
        match find_label(self.language_symbols, c) {
            Some(i) => Some(i + self.tape_symbols.len()),
            None => find_label(self.tape_symbols, c),
        }
    }

    /// Every character of the word has a combined-alphabet index.
    pub open spec fn word_ok(self, w: Seq<char>) -> bool {
        forall|i: int| 0 <= i < w.len() ==> (#[trigger] self.encode_char(w[i])) is Some
    }

    /// Position of the first character of `w` that no alphabet contains
    /// (`w.len()` when every character encodes).
    pub open spec fn first_unknown(self, w: Seq<char>) -> int
        decreases w.len(),
    {
        if w.len() == 0 {
            0
        } else if self.encode_char(w[0]) is None {
            0
        } else {
            1 + self.first_unknown(w.drop_first())
        }
    }

    /// The encoded word alone, cell `i` holding the index of `w[i]`.
    pub open spec fn encoded_word(self, w: Seq<char>) -> Seq<int> {
        Seq::new(w.len(), |i: int| self.encode_char(w[i]).unwrap())
    }

    /// The initial tape: the left-end marker followed by the encoded word.
    pub open spec fn initial_tape(self, w: Seq<char>) -> Seq<int> {
        seq![1int] + self.encoded_word(w)
    }
}

/// An index a character encodes to is a valid combined-alphabet index.
pub proof fn lemma_encode_char_in_range(m: MachineSpec, c: char)
    requires
        m.encode_char(c) is Some,
    ensures
        0 <= m.encode_char(c).unwrap() < m.combined(),
{
    lemma_find_label_props(m.language_symbols, c);
    lemma_find_label_props(m.tape_symbols, c);
}

/// `first_unknown` names the position of the first character that fails to
/// encode.
pub proof fn lemma_first_unknown(m: MachineSpec, w: Seq<char>, i: int)
    requires
        0 <= i < w.len(),
        m.encode_char(w[i]) is None,
        forall|j: int| 0 <= j < i ==> (#[trigger] m.encode_char(w[j])) is Some,
    ensures
        m.first_unknown(w) == i,
    decreases i,
{
    if i == 0 {
    } else {
        assert(m.encode_char(w[0]) is Some);
        assert(w.drop_first()[i - 1] == w[i]);
        assert forall|j: int| 0 <= j < i - 1 implies (#[trigger] m.encode_char(
            w.drop_first()[j],
        )) is Some by {
            assert(w.drop_first()[j] == w[j + 1]);
        }
        lemma_first_unknown(m, w.drop_first(), i - 1);
    }
}

/// The label a tape cell is rendered with: a lookup in the combined
/// alphabet. An index outside the combined alphabet renders as nothing
/// (it cannot occur on a well-formed tape).
pub open spec fn render_cell(m: MachineSpec, x: int) -> Seq<char> {
    if 0 <= x < m.tape_symbols.len() {
        m.tape_symbols[x]
    } else if m.tape_symbols.len() <= x < m.combined() {
        m.language_symbols[x - m.tape_symbols.len()]
    } else {
        Seq::empty()
    }
}

/// The labels of a stretch of tape cells, concatenated in order.
pub open spec fn render_cells(m: MachineSpec, tape: Seq<int>) -> Seq<char>
    decreases tape.len(),
{
    if tape.len() == 0 {
        Seq::empty()
    } else {
        render_cell(m, tape[0]) + render_cells(m, tape.drop_first())
    }
}

/// An executable tape's cells as model values.
pub open spec fn tape_view(tape: Seq<usize>) -> Seq<int> {
    Seq::new(tape.len(), |i: int| tape[i] as int)
}

/// Well-formedness of a configuration against its machine: the control state
/// is valid and, while running, non-terminal; the head is on the tape; every
/// cell holds a combined-alphabet index; and the clock mirrors the tape
/// length and stays within machine bounds.
pub open spec fn config_wf(m: MachineSpec, c: ConfigSpec) -> bool {
    &&& 0 <= c.current_state < m.states.len()
    &&& (c.status == TMStatus::Executing ==> c.current_state != m.accept_state
        && c.current_state != m.reject_state)
    &&& 0 <= c.head_position < c.tape.len()
    &&& c.tape.len() <= usize::MAX
    &&& forall|i: int| 0 <= i < c.tape.len() ==> 0 <= #[trigger] c.tape[i] < m.combined()
    &&& c.clock.space == c.tape.len()
    &&& 0 <= c.clock.time <= usize::MAX
    &&& (c.clock.time_limit matches Some(l) ==> 0 <= l <= usize::MAX)
    &&& (c.clock.space_limit matches Some(l) ==> 0 <= l <= usize::MAX)
}

/// The configuration a run starts from: start state, head on the left-end
/// marker, the encoded word on the tape, and a fresh clock.
pub open spec fn initial_config(
    m: MachineSpec,
    w: Seq<char>,
    time_limit: Option<int>,
    space_limit: Option<int>,
) -> ConfigSpec {
    ConfigSpec {
        current_state: m.start_state,
        head_position: 0,
        tape: m.initial_tape(w),
        status: TMStatus::Executing,
        clock: ClockSpec { time: 0, time_limit, space: w.len() + 1int, space_limit },
    }
}

/// Whether the step about to be taken exhausts the time budget: the budget
/// accounts for the attempt, so the counter is advanced before the check.
pub open spec fn times_out(c: ConfigSpec) -> bool {
    match c.clock.time_limit {
        Some(l) => c.clock.time + 1 >= l,
        None => false,
    }
}

/// Where the head lands after a move: offsets add, and a leftward move
/// saturates at cell `0` instead of underflowing.
pub open spec fn move_target(head: int, off: int) -> int {
    if head + off >= 0 {
        head + off
    } else {
        0
    }
}

/// The step's arithmetic outgrew the address space: either the step counter
/// cannot record one more attempt, or a rightward move's target cell could
/// not even be indexed (the tape would have to outgrow `usize`). Either is a
/// fatal engine fault, not a machine outcome, and never arises from a
/// well-formed table on realistic inputs.
pub open spec fn step_fault(m: MachineSpec, c: ConfigSpec) -> bool {
    &&& c.status == TMStatus::Executing
    &&& (c.clock.time >= usize::MAX || (!times_out(c) && {
        let t = m.transitions[c.current_state][c.tape[c.head_position]];
        t.2 >= 0 && c.head_position + t.2 >= usize::MAX
    }))
}

/// The tape extended with blank cells until it covers `target` cells (the
/// tape never shrinks).
pub open spec fn grown_tape(tape: Seq<int>, target: int) -> Seq<int> {
    if target > tape.len() {
        tape + Seq::new((target - tape.len()) as nat, |i: int| 0int)
    } else {
        tape
    }
}

/// One step of the interpreter.
///
/// A terminal configuration is left unchanged, as is a faulting one (the
/// executable step reports the fault instead of stepping). Otherwise the
/// step counter advances first and the run freezes with `Timeout` if it
/// reaches the limit, the transition not applied. Else the transition for
/// the symbol under the head is applied: the write lands on the old head
/// cell, and the tape grows to cover the move target. Whenever the tape
/// grew, the space budget is checked, and that check comes before the
/// terminal check, so a step that both exhausts the space budget and enters
/// accept or reject reports `Spaceout`. A step that ends in `Accept` or
/// `Reject` leaves the head where it was; every other completed step moves
/// it to the target.
pub open spec fn step_config(m: MachineSpec, c: ConfigSpec) -> ConfigSpec {
    if c.status != TMStatus::Executing || step_fault(m, c) {
        c
    } else if times_out(c) {
        ConfigSpec {
            status: TMStatus::Timeout,
            clock: ClockSpec { time: c.clock.time + 1, ..c.clock },
            ..c
        }
    } else {
        let t = m.transitions[c.current_state][c.tape[c.head_position]];
        let new_head = move_target(c.head_position, t.2);
        let grew = new_head >= c.tape.len();
        let tape = grown_tape(c.tape.update(c.head_position, t.1), new_head + 1);
        let spaced_out = grew && match c.clock.space_limit {
            Some(l) => tape.len() >= l,
            None => false,
        };
        let entered_terminal = t.0 == m.accept_state || t.0 == m.reject_state;
        ConfigSpec {
            current_state: t.0,
            head_position: if spaced_out || !entered_terminal {
                new_head
            } else {
                c.head_position
            },
            tape,
            status: if spaced_out {
                TMStatus::Spaceout
            } else if t.0 == m.accept_state {
                TMStatus::Accept
            } else if t.0 == m.reject_state {
                TMStatus::Reject
            } else {
                TMStatus::Executing
            },
            clock: ClockSpec {
                time: c.clock.time + 1,
                space: tape.len() as int,
                ..c.clock
            },
        }
    }
}

/// One step never shrinks the tape.
pub proof fn lemma_step_tape_monotonic(m: MachineSpec, c: ConfigSpec)
    requires
        config_wf(m, c),
    ensures
        step_config(m, c).tape.len() >= c.tape.len(),
{
    if c.status != TMStatus::Executing || times_out(c) || step_fault(m, c) {
    } else {
        let t = m.transitions[c.current_state][c.tape[c.head_position]];
        let written = c.tape.update(c.head_position, t.1);
        assert(written.len() == c.tape.len());
        assert(grown_tape(written, move_target(c.head_position, t.2) + 1).len()
            >= written.len());
    }
}

/// One step of a well-formed configuration is well formed again.
pub proof fn lemma_step_preserves_wf(m: MachineSpec, c: ConfigSpec)
    requires
        m.wf(),
        config_wf(m, c),
    ensures
        config_wf(m, step_config(m, c)),
{
    if c.status != TMStatus::Executing || times_out(c) || step_fault(m, c) {
    } else {
        let t = m.transitions[c.current_state][c.tape[c.head_position]];
        assert(m.row_wf(m.transitions[c.current_state]));
        assert(0 <= c.tape[c.head_position] < m.combined());
        assert(0 <= t.0 < m.states.len() && 0 <= t.1 < m.combined());
        let new_head = move_target(c.head_position, t.2);
        let written = c.tape.update(c.head_position, t.1);
        let tape = grown_tape(written, new_head + 1);
        assert(new_head + 1 <= usize::MAX);
        assert(new_head < tape.len());
        assert(c.head_position < tape.len());
        assert forall|i: int| 0 <= i < tape.len() implies 0 <= #[trigger] tape[i]
            < m.combined() by {
            if i < written.len() {
                assert(tape[i] == written[i]);
            } else {
                assert(tape[i] == 0);
            }
        }
    }
}

/// The configuration after `n` steps.
pub open spec fn steps(m: MachineSpec, c: ConfigSpec, n: nat) -> ConfigSpec
    decreases n,
{
    if n == 0 {
        c
    } else {
        step_config(m, steps(m, c, (n - 1) as nat))
    }
}

} // verus!
