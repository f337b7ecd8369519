//! Machine definitions: states, symbols, the transition table, and the
//! encoding of an input word onto a fresh tape.

use crate::model::{
    find_label, label_matches, lemma_find_label_at, lemma_find_label_none, lemma_first_unknown,
    MachineSpec,
};
use vstd::prelude::*;

verus! {

/// A control state, identified by its position in the machine's state list;
/// the label is for display only and need not be unique.
#[derive(Debug, PartialEq, Eq, PartialOrd, Ord)]
pub struct State(pub String);

/// A tape symbol, identified by its position in the combined alphabet; the
/// label is what `encode` matches input characters against.
#[derive(Debug, PartialEq, Eq, PartialOrd, Ord)]
pub struct Symbol(pub String);

/// One entry of the transition table: next state index, write symbol index
/// (combined encoding), and signed move offset.
#[derive(Debug, Clone, Copy, PartialEq, Eq)]
pub struct Transition(pub usize, pub usize, pub i32);

/// The error encoding reports: the first character of the word that neither
/// alphabet contains. Raised before any execution is created; the caller may
/// retry with a corrected word.
#[derive(Debug, PartialEq, Eq)]
pub struct UnknownSymbolError(pub char);

/// An immutable machine definition: its state list, its two symbol
/// alphabets, its transition table indexed `[state][combined symbol]`, and
/// the three distinguished state indices. It is never mutated after
/// construction and may back any number of independent executions.
#[derive(Debug)]
pub struct TuringMachine {
    pub states: Vec<State>,
    pub tape_symbols: Vec<Symbol>,
    pub language_symbols: Vec<Symbol>,
    pub transitions: Vec<Vec<Transition>>,
    pub start_state: usize,
    pub accept_state: usize,
    pub reject_state: usize,
}

/// The labels of a symbol list.
pub open spec fn symbol_labels(syms: Seq<Symbol>) -> Seq<Seq<char>> {
    Seq::new(syms.len(), |i: int| syms[i].0@)
}

/// The labels of a state list.
pub open spec fn state_labels(states: Seq<State>) -> Seq<Seq<char>> {
    Seq::new(states.len(), |i: int| states[i].0@)
}

/// A transition row as model triples.
pub open spec fn row_view(row: Seq<Transition>) -> Seq<(int, int, int)> {
    Seq::new(row.len(), |i: int| (row[i].0 as int, row[i].1 as int, row[i].2 as int))
}

impl View for TuringMachine {
    type V = MachineSpec;

    open spec fn view(&self) -> MachineSpec {
        MachineSpec {
            states: state_labels(self.states@),
            tape_symbols: symbol_labels(self.tape_symbols@),
            language_symbols: symbol_labels(self.language_symbols@),
            transitions: Seq::new(self.transitions@.len(), |i: int| row_view(self.transitions@[i]@)),
            start_state: self.start_state as int,
            accept_state: self.accept_state as int,
            reject_state: self.reject_state as int,
        }
    }
}

impl TuringMachine {
    /// Well-formedness of the definition; a precondition the caller of the
    /// execution entry points must satisfy, since the fields are public.
    pub open spec fn wf(self) -> bool {
        self@.wf()
    }
}

/// Index of the first symbol whose label is the one-character string of `c`.
fn find_symbol(symbols: &Vec<Symbol>, c: char) -> (r: Option<usize>)
    ensures
        match r {
            Some(i) => i < symbols@.len() && find_label(symbol_labels(symbols@), c) == Some(
                i as int,
            ),
            None => find_label(symbol_labels(symbols@), c) is None,
        },
{
    let n = symbols.len();
    let mut i: usize = 0;
    while i < n
        invariant
            n == symbols@.len(),
            i <= n,
            forall|j: int| 0 <= j < i ==> !label_matches((#[trigger] symbols@[j]).0@, c),
        decreases n - i,
    {
        let label = symbols[i].0.as_str();
        if label.unicode_len() == 1 && label.get_char(0) == c {
            proof {
                assert(symbol_labels(symbols@)[i as int] == symbols@[i as int].0@);
                assert forall|j: int| 0 <= j < i implies !label_matches(
                    #[trigger] symbol_labels(symbols@)[j],
                    c,
                ) by {
                    assert(symbol_labels(symbols@)[j] == symbols@[j].0@);
                }
                lemma_find_label_at(symbol_labels(symbols@), c, i as int);
            }
            return Some(i);
        }
        i = i + 1;
    }
    proof {
        assert forall|j: int| 0 <= j < symbols@.len() implies !label_matches(
            #[trigger] symbol_labels(symbols@)[j],
            c,
        ) by {
            assert(symbol_labels(symbols@)[j] == symbols@[j].0@);
        }
        lemma_find_label_none(symbol_labels(symbols@), c);
    }
    None
}

impl TuringMachine {
    /// Encodes an input word onto a fresh tape: cell `0` holds the left-end
    /// marker and cell `i + 1` the combined-alphabet index of the word's
    /// `i`-th character, the language alphabet consulted first. Pure; the
    /// first character found in neither alphabet is reported as an
    /// [`UnknownSymbolError`] and no tape is produced.
    pub fn encode(&self, word: &String) -> (r: Result<Vec<usize>, UnknownSymbolError>)
        requires
            self.wf(),
        ensures
            r is Ok <==> self@.word_ok(word@),
            r matches Ok(tape) ==> crate::model::tape_view(tape@) == self@.initial_tape(word@),
            r matches Err(e) ==> e.0 == word@[self@.first_unknown(word@)],
    {
        let w = word.as_str();
        let n = w.unicode_len();
        let mut tape: Vec<usize> = Vec::new();
        tape.push(1);
        let mut i: usize = 0;
        while i < n
            invariant
                self.wf(),
                n == word@.len(),
                w@ == word@,
                i <= n,
                tape@.len() == i + 1,
                tape@[0] == 1usize,
                forall|j: int|
                    1 <= j <= i ==> {
                        &&& (#[trigger] self@.encode_char(word@[j - 1])) is Some
                        &&& tape@[j] as int == self@.encode_char(word@[j - 1]).unwrap()
                    },
            decreases n - i,
        {
            let c = w.get_char(i);
            let idx: usize = match find_symbol(&self.language_symbols, c) {
                Some(p) => p + self.tape_symbols.len(),
                None => match find_symbol(&self.tape_symbols, c) {
                    Some(p) => p,
                    None => {
                        proof {
                            assert forall|j: int| 0 <= j < i implies (#[trigger] self@.encode_char(
                                word@[j],
                            )) is Some by {
                                assert(self@.encode_char(word@[(j + 1) - 1]) is Some);
                            }
                            lemma_first_unknown(self@, word@, i as int);
                        }
                        return Err(UnknownSymbolError(c));
                    },
                },
            };
            tape.push(idx);
            i = i + 1;
        }
        proof {
            assert forall|k: int| 0 <= k < word@.len() implies (#[trigger] self@.encode_char(
                word@[k],
            )) is Some by {
                assert(self@.encode_char(word@[(k + 1) - 1]) is Some);
            }
            assert(crate::model::tape_view(tape@) =~= self@.initial_tape(word@));
        }
        Ok(tape)
    }
}

/// The model of the minimal fixture machine that [`TuringMachine::default`]
/// builds.
pub open spec fn default_machine() -> MachineSpec {
    MachineSpec {
        states: seq!["q0"@, "q1"@, "q2"@],
        tape_symbols: seq!["_"@, ">"@],
        language_symbols: seq!["0"@, "1"@],
        transitions: seq![
            seq![(1int, 0int, 1int), (1int, 1int, 1int), (1int, 2int, 1int), (1int, 3int, 1int)],
        ],
        start_state: 0,
        accept_state: 1,
        reject_state: 2,
    }
}

impl Default for TuringMachine {
    /// A minimal three-state fixture: state `q0` moves right and into the
    /// accept state `q1` on every symbol; `q2` is the reject state. Meant
    /// for tests, not as a useful machine.
    fn default() -> (r: Self)
        ensures
            r.wf(),
            r@ == default_machine(),
    {
        let m = TuringMachine {
            states: vec![
                State(String::from_str("q0")),
                State(String::from_str("q1")),
                State(String::from_str("q2")),
            ],
            tape_symbols: vec![Symbol(String::from_str("_")), Symbol(String::from_str(">"))],
            language_symbols: vec![Symbol(String::from_str("0")), Symbol(String::from_str("1"))],
            transitions: vec![
                vec![Transition(1, 0, 1), Transition(1, 1, 1), Transition(1, 2, 1), Transition(
                    1,
                    3,
                    1,
                )],
            ],
            start_state: 0,
            accept_state: 1,
            reject_state: 2,
        };
        proof {
            assert(m@.states =~= default_machine().states);
            assert(m@.tape_symbols =~= default_machine().tape_symbols);
            assert(m@.language_symbols =~= default_machine().language_symbols);
            assert(m@.transitions[0] =~= default_machine().transitions[0]);
            assert(m@.transitions =~= default_machine().transitions);
            assert(m@ =~= default_machine());
            assert forall|s: int|
                0 <= s < m@.states.len() && s != m@.accept_state && s != m@.reject_state implies s
                < m@.transitions.len() && m@.row_wf(#[trigger] m@.transitions[s]) by {
                assert(s == 0);
                assert(m@.row_wf(m@.transitions[0]));
            }
        }
        m
    }
}

} // verus!
