//! The general laws of the interpreter, proved once and for all over the
//! model: iterated stepping preserves well-formedness and never shrinks the
//! tape, a time-limited run halts, the step counter counts the attempted
//! steps, and rendering an encoded word reproduces the word.

use crate::execution::TMStatus;
use crate::model::{
    config_wf, lemma_find_label_props, lemma_step_preserves_wf, lemma_step_tape_monotonic,
    render_cell, render_cells, step_config, step_fault, steps, times_out, ConfigSpec, MachineSpec,
};
use vstd::prelude::*;

verus! {

/// Iterated stepping unfolds from the front as well as from the back.
pub proof fn lemma_steps_shift(m: MachineSpec, c: ConfigSpec, n: nat)
    ensures
        steps(m, c, n + 1) == steps(m, step_config(m, c), n),
    decreases n,
{
    if n == 0 {
        assert(steps(m, c, 1) == step_config(m, steps(m, c, 0)));
        assert(steps(m, step_config(m, c), 0) == step_config(m, c));
    } else {
        lemma_steps_shift(m, c, (n - 1) as nat);
        assert(steps(m, c, n + 1) == step_config(m, steps(m, c, n)));
        assert(steps(m, step_config(m, c), n) == step_config(
            m,
            steps(m, step_config(m, c), (n - 1) as nat),
        ));
    }
}

/// Across any sequence of steps, well-formedness is preserved and the tape
/// only grows: its length is monotonically non-decreasing and it never
/// shrinks.
pub proof fn lemma_tape_only_grows(m: MachineSpec, c: ConfigSpec, n: nat)
    requires
        m.wf(),
        config_wf(m, c),
    ensures
        config_wf(m, steps(m, c, n)),
        steps(m, c, n).tape.len() >= c.tape.len(),
    decreases n,
{
    if n == 0 {
    } else {
        lemma_tape_only_grows(m, c, (n - 1) as nat);
        lemma_step_preserves_wf(m, steps(m, c, (n - 1) as nat));
        lemma_step_tape_monotonic(m, steps(m, c, (n - 1) as nat));
    }
}

/// Every run with a time limit halts: within the budget it reaches a
/// configuration whose status is no longer `Executing`, unless the engine
/// faults first (which the executable `run` reports as an error and stops
/// on).
pub proof fn lemma_time_limited_run_halts(m: MachineSpec, c: ConfigSpec, l: int)
    requires
        m.wf(),
        config_wf(m, c),
        c.clock.time_limit == Some(l),
    ensures
        exists|n: nat|
            #![trigger steps(m, c, n)]
            steps(m, c, n).status != TMStatus::Executing || step_fault(m, steps(m, c, n)),
    decreases (if c.clock.time < l {
        l - c.clock.time
    } else {
        0
    }),
{
    if c.status != TMStatus::Executing || step_fault(m, c) {
        assert(steps(m, c, 0) == c);
    } else if times_out(c) {
        assert(steps(m, c, 1) == step_config(m, steps(m, c, 0)));
        assert(steps(m, c, 1).status == TMStatus::Timeout);
    } else {
        let c1 = step_config(m, c);
        lemma_step_preserves_wf(m, c);
        if c1.status != TMStatus::Executing {
            assert(steps(m, c, 1) == step_config(m, steps(m, c, 0)));
            assert(steps(m, c, 1).status != TMStatus::Executing);
        } else {
            assert(c.clock.time + 1 < l);
            assert(c1.clock.time == c.clock.time + 1);
            lemma_time_limited_run_halts(m, c1, l);
            let n1 = choose|n: nat|
                #![trigger steps(m, c1, n)]
                steps(m, c1, n).status != TMStatus::Executing || step_fault(m, steps(m, c1, n));
            lemma_steps_shift(m, c, n1);
            assert(steps(m, c, n1 + 1).status != TMStatus::Executing || step_fault(
                m,
                steps(m, c, n1 + 1),
            ));
        }
    }
}

/// The step counter counts the attempted steps exactly: across any stretch
/// of a run in which every configuration is still executing and none
/// faults, it advances by one per step taken.
pub proof fn lemma_time_counts_steps(m: MachineSpec, c: ConfigSpec, n: nat)
    requires
        forall|k: nat|
            k < n ==> (#[trigger] steps(m, c, k)).status == TMStatus::Executing && !step_fault(
                m,
                steps(m, c, k),
            ),
    ensures
        steps(m, c, n).clock.time == c.clock.time + n,
    decreases n,
{
    if n == 0 {
    } else {
        lemma_time_counts_steps(m, c, (n - 1) as nat);
        assert(steps(m, c, (n - 1) as nat).status == TMStatus::Executing);
    }
}

/// Rendering inverts encoding for one character: the label of the cell a
/// character encodes to is that character again.
pub proof fn lemma_render_cell_inverts_encode(m: MachineSpec, c: char)
    requires
        m.wf(),
        m.encode_char(c) is Some,
    ensures
        render_cell(m, m.encode_char(c).unwrap()) == seq![c],
{
    lemma_find_label_props(m.language_symbols, c);
    lemma_find_label_props(m.tape_symbols, c);
    assert(render_cell(m, m.encode_char(c).unwrap()) =~= seq![c]);
}

proof fn lemma_render_encoded_word(m: MachineSpec, w: Seq<char>)
    requires
        m.wf(),
        m.word_ok(w),
    ensures
        render_cells(m, m.encoded_word(w)) == w,
    decreases w.len(),
{
    let e = m.encoded_word(w);
    if w.len() == 0 {
        assert(render_cells(m, e) =~= w);
    } else {
        assert(m.encode_char(w[0]) is Some);
        lemma_render_cell_inverts_encode(m, w[0]);
        assert(e.drop_first() =~= m.encoded_word(w.drop_first()));
        assert forall|i: int|
            0 <= i < w.drop_first().len() implies (#[trigger] m.encode_char(
            w.drop_first()[i],
        )) is Some by {
            assert(w.drop_first()[i] == w[i + 1]);
        }
        lemma_render_encoded_word(m, w.drop_first());
        assert(render_cells(m, e) =~= w);
    }
}

/// Encoding round-trip: encoding a word and rendering the resulting initial
/// tape's cells, the left-end marker excluded, reproduces the word.
pub proof fn lemma_encode_round_trip(m: MachineSpec, w: Seq<char>)
    requires
        m.wf(),
        m.word_ok(w),
    ensures
        render_cells(m, m.initial_tape(w).drop_first()) == w,
{
    assert(m.initial_tape(w).drop_first() =~= m.encoded_word(w));
    lemma_render_encoded_word(m, w);
}

} // verus!
