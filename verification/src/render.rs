//! The textual tape-configuration renderer: display only, no effect on
//! simulation state.

use crate::execution::TMExecution;
use crate::model::{render_cell, ConfigSpec, MachineSpec};
use vstd::prelude::*;

verus! {

/// What one cell contributes to the configuration line: its label, prefixed
/// by the current state's label in parentheses when the head is on it.
pub open spec fn render_chunk(m: MachineSpec, c: ConfigSpec, i: int) -> Seq<char> {
    if i == c.head_position {
        "("@ + m.states[c.current_state] + ")"@ + render_cell(m, c.tape[i])
    } else {
        render_cell(m, c.tape[i])
    }
}

/// The contributions of the first `i` cells, concatenated in order.
pub open spec fn render_upto(m: MachineSpec, c: ConfigSpec, i: int) -> Seq<char>
    decreases i,
{
    if i <= 0 {
        Seq::empty()
    } else {
        render_upto(m, c, i - 1) + render_chunk(m, c, i - 1)
    }
}

/// The whole single-line configuration.
pub open spec fn render_config(m: MachineSpec, c: ConfigSpec) -> Seq<char> {
    render_upto(m, c, c.tape.len() as int)
}

impl<'a> TMExecution<'a> {
    /// The single-line textual configuration: every cell's symbol label in
    /// tape order, with the current state's label in parentheses prefixed
    /// to the cell under the head.
    pub fn render(&self) -> (r: String)
        requires
            self.wf(),
        ensures
            r@ == render_config(self.machine@, self@),
    {
        let mut out = String::new();
        let mach = self.machine;
        let ctrl = mach.tape_symbols.len();
        let n = self.tape.len();
        let mut i: usize = 0;
        while i < n
            invariant
                self.wf(),
                mach == self.machine,
                n == self.tape@.len(),
                ctrl == mach.tape_symbols@.len(),
                i <= n,
                out@ == render_upto(mach@, self@, i as int),
            decreases n - i,
        {
            if i == self.head_position {
                out.append("(");
                out.append(mach.states[self.current_state].0.as_str());
                out.append(")");
            }
            let x = self.tape[i];
            proof {
                assert(self@.tape[i as int] == x as int);
                assert(x < mach@.combined());
            }
            if x < ctrl {
                out.append(mach.tape_symbols[x].0.as_str());
            } else {
                out.append(mach.language_symbols[x - ctrl].0.as_str());
            }
            proof {
                assert(out@ =~= render_upto(mach@, self@, i as int + 1));
            }
            i = i + 1;
        }
        out
    }
}

} // verus!
