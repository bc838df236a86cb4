//! The definition-language parser: a finite automaton over named
//! phases, driven one character at a time, with a scratch buffer
//! between delimiters.
//!
//! The automaton itself is written down as the spec function
//! `step_char_spec`; `parse_chars` folds it over the source text. The
//! executable parser is proved to return exactly `parse_spec` of its
//! input, so everything about parsing — determinism included — follows
//! from one definition.

use vstd::prelude::*;

use crate::machine::{
    has_state, marker_symbol, move_token, state_index, trans_index, lemma_state_index,
    lemma_trans_index, lemma_state_index_at, lemma_trans_index_at, lemma_has_state_index,
    states_model, tapes_model, trans_model, lemma_states_model, lemma_tapes_model, lemma_trans_model,
    MachineModel, Move, State, StateModel, Tape, TapeModel, Transition, TransitionModel,
    TuringMachine,
};
use crate::text::{push_char, str_eq, str_vec_eq};

verus! {

// ---------------------------------------------------------------------
// Errors
// ---------------------------------------------------------------------

/// Why a source failed to parse. The first five are syntax errors, the
/// last three reference and initial-flag errors (see `is_syntax_error`
/// and its companions).
#[derive(Clone, Copy, Debug, PartialEq, Eq, Structural)]
pub enum ParseErrorKind {
    /// A top-level token that is no command and opens no rule.
    UnknownCommand,
    /// A state option other than `initial` or `final`.
    UnknownStateOption,
    /// A line break before a clause was complete.
    UnexpectedLineBreak,
    /// A move token other than `->`, `<-` or `-`.
    UnknownMove,
    /// A clause whose tuple length differs from the declared tape count.
    ArityMismatch,
    /// A rule references a state name absent from the registry.
    UndefinedState,
    /// A second state was flagged initial.
    MultipleInitialStates,
    /// No state was ever flagged initial.
    NoInitialState,
}

impl ParseErrorKind {
    /// The syntax-error class: malformed tokens and clauses.
    pub open spec fn spec_is_syntax_error(self) -> bool {
        match self {
            ParseErrorKind::UnknownCommand => true,
            ParseErrorKind::UnknownStateOption => true,
            ParseErrorKind::UnexpectedLineBreak => true,
            ParseErrorKind::UnknownMove => true,
            ParseErrorKind::ArityMismatch => true,
            _ => false,
        }
    }

    /// The reference-error class: a name that is not registered where
    /// one is required.
    pub open spec fn spec_is_reference_error(self) -> bool {
        self == ParseErrorKind::UndefinedState || self == ParseErrorKind::NoInitialState
    }

    #[verifier::when_used_as_spec(spec_is_syntax_error)]
    pub fn is_syntax_error(self) -> (r: bool)
        ensures
            r == self.spec_is_syntax_error(),
    {
        matches!(
            self,
            ParseErrorKind::UnknownCommand | ParseErrorKind::UnknownStateOption
                | ParseErrorKind::UnexpectedLineBreak | ParseErrorKind::UnknownMove
                | ParseErrorKind::ArityMismatch
        )
    }

    #[verifier::when_used_as_spec(spec_is_reference_error)]
    pub fn is_reference_error(self) -> (r: bool)
        ensures
            r == self.spec_is_reference_error(),
    {
        matches!(self, ParseErrorKind::UndefinedState | ParseErrorKind::NoInitialState)
    }
}

/// The view of a `ParseError`.
#[verifier::ext_equal]
pub struct ParseErrorModel {
    pub kind: ParseErrorKind,
    pub line: nat,
    pub token: Seq<char>,
}

/// A structured parse failure: its kind, the 1-based source line it was
/// detected on, and the offending token (empty where none applies).
#[derive(Clone, Debug, PartialEq, Eq)]
pub struct ParseError {
    pub kind: ParseErrorKind,
    pub line: usize,
    pub token: String,
}

impl View for ParseError {
    type V = ParseErrorModel;

    open spec fn view(&self) -> ParseErrorModel {
        ParseErrorModel { kind: self.kind, line: self.line as nat, token: self.token@ }
    }
}

pub open spec fn perr(kind: ParseErrorKind, line: nat, token: Seq<char>) -> ParseErrorModel {
    ParseErrorModel { kind, line, token }
}

// ---------------------------------------------------------------------
// The automaton
// ---------------------------------------------------------------------

/// The parser's phases. Delimiters (space, `[`, `]`, `(`, `)`, line
/// break) drive the moves between them.
#[derive(Clone, Copy, Debug, PartialEq, Eq, Structural)]
pub enum Phase {
    Begin,
    Alphabet,
    Tapes,
    States,
    StateOptions,
    Comment,
    InputState,
    InputSymbol,
    BetweenClauses,
    OutputState,
    OutputSymbol,
    OutputMoves,
}

/// The whole parser configuration between two characters: the phase,
/// the scratch buffers, what has been registered so far, and the parts
/// of the rule currently being read.
#[verifier::ext_equal]
pub struct ParserModel {
    pub phase: Phase,
    pub buffer: Seq<char>,
    pub flags_buffer: Seq<char>,
    pub initial_state: Option<Seq<char>>,
    pub alphabet: Seq<Seq<char>>,
    pub tapes: Seq<TapeModel>,
    pub states: Seq<StateModel>,
    pub state_is_final: bool,
    pub state_is_initial: bool,
    pub transitions: Seq<TransitionModel>,
    pub state_input: Seq<char>,
    pub symbols_input: Seq<Seq<char>>,
    pub state_output: Seq<char>,
    pub symbols_output: Seq<Seq<char>>,
    pub moves: Seq<Move>,
    pub line: nat,
}

/// A tape as the `tapes` command registers it: one boundary-marker
/// cell, cursor at `0`.
pub open spec fn fresh_tape(name: Seq<char>) -> TapeModel {
    TapeModel { name, content: seq![marker_symbol()], cursor: 0nat }
}

/// Registers a state: a state of the same name is replaced, a new name
/// is appended (last write wins).
pub open spec fn upsert_state(states: Seq<StateModel>, st: StateModel) -> Seq<StateModel> {
    let i = state_index(states, st.name);
    if i < 0 {
        states.push(st)
    } else {
        states.update(i, st)
    }
}

/// Registers a rule: a rule with the same key is replaced, a new key is
/// appended (last write wins).
pub open spec fn upsert_transition(
    transitions: Seq<TransitionModel>,
    t: TransitionModel,
) -> Seq<TransitionModel> {
    let i = trans_index(transitions, t.input_state, t.input_symbols);
    if i < 0 {
        transitions.push(t)
    } else {
        transitions.update(i, t)
    }
}

/// One character's effect on the parser: the phase automaton itself.
/// Line counting happens first; every other effect depends on the
/// phase and the character.
pub open spec fn step_char_spec(p0: ParserModel, c: char) -> Result<ParserModel, ParseErrorModel> {
    let p = if c == '\n' {
        ParserModel { line: p0.line + 1, ..p0 }
    } else {
        p0
    };
    match p.phase {
        Phase::Begin => {
            if c == ' ' {
                if p.buffer == "alphabet"@ {
                    Ok(ParserModel { phase: Phase::Alphabet, buffer: Seq::empty(), ..p })
                } else if p.buffer == "tapes"@ {
                    Ok(ParserModel { phase: Phase::Tapes, buffer: Seq::empty(), ..p })
                } else if p.buffer == "states"@ {
                    Ok(ParserModel { phase: Phase::States, buffer: Seq::empty(), ..p })
                } else if p.buffer == "#"@ {
                    Ok(ParserModel { phase: Phase::Comment, buffer: Seq::empty(), ..p })
                } else {
                    Err(perr(ParseErrorKind::UnknownCommand, p.line, p.buffer))
                }
            } else if c == '[' {
                Ok(ParserModel { phase: Phase::InputState, buffer: Seq::empty(), ..p })
            } else {
                Ok(ParserModel { buffer: p.buffer.push(c), ..p })
            }
        },
        Phase::Comment => {
            if c == '\n' {
                Ok(ParserModel { phase: Phase::Begin, ..p })
            } else {
                Ok(p)
            }
        },
        Phase::Alphabet => {
            if c == ' ' {
                Ok(ParserModel { alphabet: p.alphabet.push(p.buffer), buffer: Seq::empty(), ..p })
            } else if c == '\n' {
                Ok(ParserModel {
                    alphabet: p.alphabet.push(p.buffer),
                    buffer: Seq::empty(),
                    phase: Phase::Begin,
                    ..p
                })
            } else {
                Ok(ParserModel { buffer: p.buffer.push(c), ..p })
            }
        },
        Phase::Tapes => {
            if c == ' ' {
                Ok(ParserModel { tapes: p.tapes.push(fresh_tape(p.buffer)), buffer: Seq::empty(), ..p })
            } else if c == '\n' {
                Ok(ParserModel {
                    tapes: p.tapes.push(fresh_tape(p.buffer)),
                    buffer: Seq::empty(),
                    phase: Phase::Begin,
                    ..p
                })
            } else {
                Ok(ParserModel { buffer: p.buffer.push(c), ..p })
            }
        },
        Phase::States => {
            if c == ' ' || c == '\n' {
                if p.state_is_initial && p.initial_state is Some {
                    Err(perr(ParseErrorKind::MultipleInitialStates, p.line, p.buffer))
                } else {
                    let st = StateModel {
                        name: p.buffer,
                        is_final: p.state_is_final,
                        is_initial: p.state_is_initial,
                    };
                    Ok(ParserModel {
                        initial_state: if p.state_is_initial {
                            Some(p.buffer)
                        } else {
                            p.initial_state
                        },
                        states: upsert_state(p.states, st),
                        buffer: Seq::empty(),
                        state_is_final: false,
                        state_is_initial: false,
                        phase: if c == '\n' {
                            Phase::Begin
                        } else {
                            Phase::States
                        },
                        ..p
                    })
                }
            } else if c == '(' {
                Ok(ParserModel { phase: Phase::StateOptions, ..p })
            } else {
                Ok(ParserModel { buffer: p.buffer.push(c), ..p })
            }
        },
        Phase::StateOptions => {
            if c == ' ' || c == ')' {
                if p.flags_buffer == "initial"@ {
                    Ok(ParserModel {
                        state_is_initial: true,
                        flags_buffer: Seq::empty(),
                        phase: if c == ')' {
                            Phase::States
                        } else {
                            Phase::StateOptions
                        },
                        ..p
                    })
                } else if p.flags_buffer == "final"@ {
                    Ok(ParserModel {
                        state_is_final: true,
                        flags_buffer: Seq::empty(),
                        phase: if c == ')' {
                            Phase::States
                        } else {
                            Phase::StateOptions
                        },
                        ..p
                    })
                } else {
                    Err(perr(ParseErrorKind::UnknownStateOption, p.line, p.flags_buffer))
                }
            } else if c == '\n' {
                Err(perr(ParseErrorKind::UnexpectedLineBreak, p.line, Seq::empty()))
            } else {
                Ok(ParserModel { flags_buffer: p.flags_buffer.push(c), ..p })
            }
        },
        Phase::InputState => {
            if c == ' ' {
                if has_state(p.states, p.buffer) {
                    Ok(ParserModel {
                        state_input: p.buffer,
                        buffer: Seq::empty(),
                        phase: Phase::InputSymbol,
                        ..p
                    })
                } else {
                    Err(perr(ParseErrorKind::UndefinedState, p.line, p.buffer))
                }
            } else if c == '[' {
                Ok(p)
            } else {
                Ok(ParserModel { buffer: p.buffer.push(c), ..p })
            }
        },
        Phase::InputSymbol => {
            if c == ' ' {
                Ok(ParserModel {
                    symbols_input: p.symbols_input.push(p.buffer),
                    buffer: Seq::empty(),
                    ..p
                })
            } else if c == ']' {
                let syms = p.symbols_input.push(p.buffer);
                if syms.len() == p.tapes.len() {
                    Ok(ParserModel {
                        symbols_input: syms,
                        buffer: Seq::empty(),
                        phase: Phase::BetweenClauses,
                        ..p
                    })
                } else {
                    Err(perr(ParseErrorKind::ArityMismatch, p.line, Seq::empty()))
                }
            } else if c == '[' {
                Ok(p)
            } else {
                Ok(ParserModel { buffer: p.buffer.push(c), ..p })
            }
        },
        Phase::BetweenClauses => {
            if c == '[' {
                Ok(ParserModel { phase: Phase::OutputState, ..p })
            } else {
                Ok(p)
            }
        },
        Phase::OutputState => {
            if c == ' ' {
                if has_state(p.states, p.buffer) {
                    Ok(ParserModel {
                        state_output: p.buffer,
                        buffer: Seq::empty(),
                        phase: Phase::OutputSymbol,
                        ..p
                    })
                } else {
                    Err(perr(ParseErrorKind::UndefinedState, p.line, p.buffer))
                }
            } else if c == '[' {
                Ok(ParserModel { buffer: Seq::empty(), ..p })
            } else if c == ']' {
                Ok(ParserModel { phase: Phase::Begin, ..p })
            } else {
                Ok(ParserModel { buffer: p.buffer.push(c), ..p })
            }
        },
        Phase::OutputSymbol => {
            if c == ' ' {
                let syms = p.symbols_output.push(p.buffer);
                Ok(ParserModel {
                    symbols_output: syms,
                    buffer: Seq::empty(),
                    phase: if syms.len() == p.tapes.len() {
                        Phase::OutputMoves
                    } else {
                        Phase::OutputSymbol
                    },
                    ..p
                })
            } else if c == '\n' {
                Err(perr(ParseErrorKind::UnexpectedLineBreak, (p.line - 1) as nat, Seq::empty()))
            } else {
                Ok(ParserModel { buffer: p.buffer.push(c), ..p })
            }
        },
        Phase::OutputMoves => {
            if c == ' ' {
                match move_token(p.buffer) {
                    Some(m) => Ok(ParserModel { moves: p.moves.push(m), buffer: Seq::empty(), ..p }),
                    None => Err(perr(ParseErrorKind::UnknownMove, p.line, p.buffer)),
                }
            } else if c == ']' {
                match move_token(p.buffer) {
                    Some(m) => {
                        let mvs = p.moves.push(m);
                        if mvs.len() == p.tapes.len() && p.symbols_input.len() == p.tapes.len()
                            && p.symbols_output.len() == p.tapes.len() {
                            let t = TransitionModel {
                                input_state: p.state_input,
                                input_symbols: p.symbols_input,
                                output_state: p.state_output,
                                output_symbols: p.symbols_output,
                                moves: mvs,
                            };
                            Ok(ParserModel {
                                transitions: upsert_transition(p.transitions, t),
                                buffer: Seq::empty(),
                                moves: Seq::empty(),
                                state_input: Seq::empty(),
                                state_output: Seq::empty(),
                                symbols_input: Seq::empty(),
                                symbols_output: Seq::empty(),
                                ..p
                            })
                        } else {
                            Err(perr(ParseErrorKind::ArityMismatch, p.line, Seq::empty()))
                        }
                    },
                    None => Err(perr(ParseErrorKind::UnknownMove, p.line, p.buffer)),
                }
            } else if c == '\n' {
                Ok(ParserModel { phase: Phase::Begin, ..p })
            } else {
                Ok(ParserModel { buffer: p.buffer.push(c), ..p })
            }
        },
    }
}

/// The parser's starting configuration: phase `Begin`, everything
/// empty, line 1.
pub open spec fn init_parser() -> ParserModel {
    ParserModel {
        phase: Phase::Begin,
        buffer: Seq::empty(),
        flags_buffer: Seq::empty(),
        initial_state: None,
        alphabet: Seq::empty(),
        tapes: Seq::empty(),
        states: Seq::empty(),
        state_is_final: false,
        state_is_initial: false,
        transitions: Seq::empty(),
        state_input: Seq::empty(),
        symbols_input: Seq::empty(),
        state_output: Seq::empty(),
        symbols_output: Seq::empty(),
        moves: Seq::empty(),
        line: 1nat,
    }
}

/// Folds the automaton over the source text; the first error wins.
pub open spec fn parse_chars(p: ParserModel, s: Seq<char>) -> Result<ParserModel, ParseErrorModel>
    decreases s.len(),
{
    if s.len() == 0 {
        Ok(p)
    } else {
        match step_char_spec(p, s[0]) {
            Ok(p2) => parse_chars(p2, s.subrange(1, s.len() as int)),
            Err(e) => Err(e),
        }
    }
}

/// The machine a finished parse yields: the registries as parsed, the
/// current state at the initial state.
pub open spec fn machine_of(p: ParserModel, initial: Seq<char>) -> MachineModel {
    MachineModel {
        initial_state: initial,
        states: p.states,
        tapes: p.tapes,
        transitions: p.transitions,
        current_state: initial,
    }
}

/// Closes a parse: a machine when some state was flagged initial, the
/// reference error otherwise.
pub open spec fn finish_spec(p: ParserModel) -> Result<MachineModel, ParseErrorModel> {
    match p.initial_state {
        Some(n) => Ok(machine_of(p, n)),
        None => Err(perr(ParseErrorKind::NoInitialState, p.line, Seq::empty())),
    }
}

/// What parsing a whole source yields. This is the parser's entire
/// contract: `TuringMachine::parse` returns exactly this.
pub open spec fn parse_spec(s: Seq<char>) -> Result<MachineModel, ParseErrorModel> {
    match parse_chars(init_parser(), s) {
        Ok(p) => finish_spec(p),
        Err(e) => Err(e),
    }
}

// ---------------------------------------------------------------------
// The parser's invariant
// ---------------------------------------------------------------------

pub open spec fn unique_state_names(states: Seq<StateModel>) -> bool {
    forall|i: int, j: int| 0 <= i < j < states.len() ==> states[i].name != states[j].name
}

pub open spec fn unique_trans_keys(transitions: Seq<TransitionModel>) -> bool {
    forall|i: int, j: int|
        0 <= i < j < transitions.len() ==> !(transitions[i].input_state
            == transitions[j].input_state && transitions[i].input_symbols
            == transitions[j].input_symbols)
}

/// A registered rule as the parser keeps it: one arity across its three
/// tuples, never above the tape count, and both state names registered.
pub open spec fn trans_ok(t: TransitionModel, states: Seq<StateModel>, ntapes: int) -> bool {
    &&& t.output_symbols.len() == t.input_symbols.len()
    &&& t.moves.len() == t.input_symbols.len()
    &&& t.input_symbols.len() <= ntapes
    &&& has_state(states, t.input_state)
    &&& has_state(states, t.output_state)
}

/// What holds of every parser configuration the automaton can reach:
/// unique registry keys, at most one initial flag (tied to
/// `initial_state`), fresh tapes, well-formed rules, and enough about
/// the rule in progress to keep the next insertion well formed.
pub open spec fn parser_inv(p: ParserModel) -> bool {
    &&& unique_state_names(p.states)
    &&& forall|i: int|
        0 <= i < p.states.len() && (#[trigger] p.states[i]).is_initial ==> p.initial_state
            == Some(p.states[i].name)
    &&& (p.initial_state matches Some(n) ==> has_state(p.states, n))
    &&& forall|i: int|
        0 <= i < p.tapes.len() ==> (#[trigger] p.tapes[i]) == fresh_tape(p.tapes[i].name)
    &&& forall|i: int|
        0 <= i < p.transitions.len() ==> trans_ok(
            #[trigger] p.transitions[i],
            p.states,
            p.tapes.len() as int,
        )
    &&& unique_trans_keys(p.transitions)
    &&& (p.phase == Phase::InputSymbol ==> has_state(p.states, p.state_input))
    &&& (p.symbols_input.len() > 0 ==> has_state(p.states, p.state_input))
    &&& (p.phase == Phase::OutputSymbol ==> has_state(p.states, p.state_output))
    &&& (p.symbols_output.len() > 0 ==> has_state(p.states, p.state_output))
}

/// What registering a state keeps and adds: uniqueness, every old name,
/// the new name; every entry is the new state or an old one whose name
/// differs from it.
pub proof fn lemma_upsert_state_props(states: Seq<StateModel>, st: StateModel)
    requires
        unique_state_names(states),
    ensures
        unique_state_names(upsert_state(states, st)),
        has_state(upsert_state(states, st), st.name),
        forall|n: Seq<char>|
            #[trigger] has_state(states, n) ==> has_state(upsert_state(states, st), n),
        forall|i: int|
            0 <= i < upsert_state(states, st).len() ==> (#[trigger] upsert_state(states, st)[i]
                == st || (upsert_state(states, st)[i].name != st.name && exists|j: int|
                0 <= j < states.len() && upsert_state(states, st)[i] == states[j])),
{
    let r = upsert_state(states, st);
    lemma_state_index(states, st.name);
    let idx = state_index(states, st.name);
    if idx < 0 {
        assert(r == states.push(st));
        assert(r[states.len() as int] == st);
        assert forall|n: Seq<char>| #[trigger] has_state(states, n) implies has_state(r, n) by {
            let j = choose|j: int| 0 <= j < states.len() && states[j].name == n;
            assert(r[j] == states[j]);
        }
    } else {
        assert(r == states.update(idx, st));
        assert(r[idx] == st);
        assert forall|n: Seq<char>| #[trigger] has_state(states, n) implies has_state(r, n) by {
            let j = choose|j: int| 0 <= j < states.len() && states[j].name == n;
            if j == idx {
                assert(r[idx].name == st.name && states[idx].name == st.name);
            } else {
                assert(r[j] == states[j]);
            }
        }
        assert forall|i: int, j: int| 0 <= i < j < r.len() implies r[i].name != r[j].name by {
            assert(r[i].name == states[i].name);
            assert(r[j].name == states[j].name);
        }
    }
}

/// The same for registering a rule, over its (state, read-symbols) key.
pub proof fn lemma_upsert_transition_props(transitions: Seq<TransitionModel>, t: TransitionModel)
    requires
        unique_trans_keys(transitions),
    ensures
        unique_trans_keys(upsert_transition(transitions, t)),
        forall|i: int|
            0 <= i < upsert_transition(transitions, t).len() ==> (#[trigger] upsert_transition(
                transitions,
                t,
            )[i] == t || exists|j: int|
                0 <= j < transitions.len() && upsert_transition(transitions, t)[i]
                    == transitions[j]),
{
    let r = upsert_transition(transitions, t);
    lemma_trans_index(transitions, t.input_state, t.input_symbols);
    let idx = trans_index(transitions, t.input_state, t.input_symbols);
    if idx < 0 {
        assert(r == transitions.push(t));
        assert(r[transitions.len() as int] == t);
        assert forall|i: int, j: int|
            0 <= i < j < r.len() implies !(r[i].input_state == r[j].input_state
            && r[i].input_symbols == r[j].input_symbols) by {
            if j < transitions.len() {
                assert(r[i] == transitions[i] && r[j] == transitions[j]);
            } else {
                assert(r[i] == transitions[i] && r[j] == t);
            }
        }
    } else {
        assert(r == transitions.update(idx, t));
        assert(r[idx] == t);
        assert forall|i: int, j: int|
            0 <= i < j < r.len() implies !(r[i].input_state == r[j].input_state
            && r[i].input_symbols == r[j].input_symbols) by {
            assert(transitions[idx].input_state == t.input_state && transitions[idx].input_symbols
                == t.input_symbols);
            if i != idx {
                assert(r[i] == transitions[i]);
            }
            if j != idx {
                assert(r[j] == transitions[j]);
            }
        }
    }
}

/// One automaton step keeps the invariant.
pub proof fn lemma_step_char_inv(p: ParserModel, c: char)
    requires
        parser_inv(p),
        step_char_spec(p, c) is Ok,
    ensures
        parser_inv(step_char_spec(p, c)->Ok_0),
{
    let q = step_char_spec(p, c)->Ok_0;
    match p.phase {
        Phase::States => {
            if c == ' ' || c == '\n' {
                let st = StateModel {
                    name: p.buffer,
                    is_final: p.state_is_final,
                    is_initial: p.state_is_initial,
                };
                lemma_upsert_state_props(p.states, st);
                assert forall|i: int|
                    0 <= i < q.states.len() && (#[trigger] q.states[i]).is_initial implies
                    q.initial_state == Some(q.states[i].name) by {
                    if q.states[i] != st {
                        assert(q.states[i].name != st.name);
                    }
                }
                assert forall|i: int|
                    0 <= i < q.transitions.len() implies trans_ok(
                    #[trigger] q.transitions[i],
                    q.states,
                    q.tapes.len() as int,
                ) by {
                    assert(trans_ok(p.transitions[i], p.states, p.tapes.len() as int));
                }
            }
        },
        Phase::OutputMoves => {
            if c == ']' && move_token(p.buffer) is Some {
                let t = TransitionModel {
                    input_state: p.state_input,
                    input_symbols: p.symbols_input,
                    output_state: p.state_output,
                    output_symbols: p.symbols_output,
                    moves: p.moves.push(move_token(p.buffer)->Some_0),
                };
                if p.moves.push(move_token(p.buffer)->Some_0).len() == p.tapes.len()
                    && p.symbols_input.len() == p.tapes.len() && p.symbols_output.len()
                    == p.tapes.len() {
                    lemma_upsert_transition_props(p.transitions, t);
                    assert(trans_ok(t, p.states, p.tapes.len() as int));
                    assert forall|i: int|
                        0 <= i < q.transitions.len() implies trans_ok(
                        #[trigger] q.transitions[i],
                        q.states,
                        q.tapes.len() as int,
                    ) by {
                        if q.transitions[i] != t {
                            let j = choose|j: int|
                                0 <= j < p.transitions.len() && q.transitions[i]
                                    == p.transitions[j];
                            assert(trans_ok(p.transitions[j], p.states, p.tapes.len() as int));
                        }
                    }
                }
            }
        },
        _ => {},
    }
    assert(unique_state_names(q.states));
    assert(forall|i: int|
        0 <= i < q.states.len() && (#[trigger] q.states[i]).is_initial ==> q.initial_state
            == Some(q.states[i].name));
    assert(q.initial_state matches Some(n) ==> has_state(q.states, n));
    assert(forall|i: int|
        0 <= i < q.tapes.len() ==> (#[trigger] q.tapes[i]) == fresh_tape(q.tapes[i].name));
    assert(forall|i: int|
        0 <= i < q.transitions.len() ==> trans_ok(
            #[trigger] q.transitions[i],
            q.states,
            q.tapes.len() as int,
        ));
    assert(unique_trans_keys(q.transitions));
    assert(q.phase == Phase::InputSymbol ==> has_state(q.states, q.state_input));
    assert(q.symbols_input.len() > 0 ==> has_state(q.states, q.state_input));
    assert(q.phase == Phase::OutputSymbol ==> has_state(q.states, q.state_output));
    assert(q.symbols_output.len() > 0 ==> has_state(q.states, q.state_output));
}

/// Folding the automaton from an invariant-satisfying configuration
/// keeps the invariant.
pub proof fn lemma_parse_chars_inv(p: ParserModel, s: Seq<char>)
    requires
        parser_inv(p),
        parse_chars(p, s) is Ok,
    ensures
        parser_inv(parse_chars(p, s)->Ok_0),
    decreases s.len(),
{
    if s.len() > 0 {
        lemma_step_char_inv(p, s[0]);
        lemma_parse_chars_inv(step_char_spec(p, s[0])->Ok_0, s.subrange(1, s.len() as int));
    }
}

/// Every machine that parses successfully is well formed.
pub proof fn lemma_parse_ok_wf(s: Seq<char>)
    requires
        parse_spec(s) is Ok,
    ensures
        (parse_spec(s)->Ok_0).wf(),
{
    assert(parser_inv(init_parser()));
    lemma_parse_chars_inv(init_parser(), s);
    let p = parse_chars(init_parser(), s)->Ok_0;
    let m = parse_spec(s)->Ok_0;
    lemma_has_state_index(p.states, m.initial_state);
    assert forall|i: int| 0 <= i < m.transitions.len() implies (#[trigger] m.transitions[i]).wf(
        m.states,
    ) by {
        assert(trans_ok(p.transitions[i], p.states, p.tapes.len() as int));
        lemma_has_state_index(p.states, p.transitions[i].input_state);
        lemma_has_state_index(p.states, p.transitions[i].output_state);
    }
}

// ---------------------------------------------------------------------
// The executable parser
// ---------------------------------------------------------------------

/// Whether the registry holds a state of this name.
#[verifier::loop_isolation(false)]
fn states_contain(states: &Vec<State>, name: &str) -> (r: bool)
    ensures
        r == has_state(states_model(states@), name@),
{
    proof {
        lemma_states_model(states@);
    }
    let n = states.len();
    let mut i: usize = 0;
    while i < n
        invariant
            i <= n,
            forall|k: int| 0 <= k < i ==> states_model(states@)[k].name != name@,
        decreases n - i,
    {
        if str_eq(states[i].name.as_str(), name) {
            proof {
                assert(states_model(states@)[i as int].name == name@);
            }
            return true;
        }
        i += 1;
    }
    proof {
        lemma_has_state_index(states_model(states@), name@);
        lemma_state_index(states_model(states@), name@);
    }
    false
}

/// Registers a state, replacing one of the same name (last write wins).
#[verifier::loop_isolation(false)]
fn upsert_state_exec(states: &mut Vec<State>, st: State)
    ensures
        states_model(final(states)@) == upsert_state(states_model(old(states)@), st@),
{
    let ghost vold = old(states)@;
    let ghost model = states_model(vold);
    let ghost stm = st@;
    proof {
        lemma_states_model(vold);
    }
    let n = states.len();
    let mut i: usize = 0;
    while i < n
        invariant
            i <= n,
            states@ == vold,
            n == vold.len(),
            forall|k: int| 0 <= k < i ==> model[k].name != stm.name,
        decreases n - i,
    {
        if str_eq(states[i].name.as_str(), st.name.as_str()) {
            proof {
                assert(model[i as int] == vold[i as int]@);
                lemma_state_index_at(model, stm.name, i as int);
            }
            states[i] = st;
            proof {
                lemma_states_model(states@);
                assert forall|k: int| 0 <= k < states@.len() implies states_model(states@)[k]
                    == upsert_state(model, stm)[k] by {
                    if k != i {
                        assert(states@[k] == vold[k]);
                    }
                }
                assert(states_model(states@) =~= upsert_state(model, stm));
            }
            return ;
        }
        i += 1;
    }
    proof {
        lemma_state_index(model, stm.name);
    }
    states.push(st);
    proof {
        lemma_states_model(states@);
        assert forall|k: int| 0 <= k < states@.len() implies states_model(states@)[k]
            == upsert_state(model, stm)[k] by {
            if k < vold.len() {
                assert(states@[k] == vold[k]);
            } else {
                assert(states@[k] == st);
            }
        }
        assert(states_model(states@) =~= upsert_state(model, stm));
    }
}

/// Registers a rule, replacing one with the same key (last write wins).
#[verifier::loop_isolation(false)]
fn upsert_transition_exec(transitions: &mut Vec<Transition>, t: Transition)
    ensures
        trans_model(final(transitions)@) == upsert_transition(trans_model(old(transitions)@), t@),
{
    let ghost vold = old(transitions)@;
    let ghost model = trans_model(vold);
    let ghost tm = t@;
    proof {
        lemma_trans_model(vold);
    }
    let n = transitions.len();
    let mut i: usize = 0;
    while i < n
        invariant
            i <= n,
            transitions@ == vold,
            n == vold.len(),
            forall|k: int|
                0 <= k < i ==> !(model[k].input_state == tm.input_state && model[k].input_symbols
                    == tm.input_symbols),
        decreases n - i,
    {
        if str_eq(transitions[i].input_state.as_str(), t.input_state.as_str()) && str_vec_eq(
            &transitions[i].input_symbols,
            &t.input_symbols,
        ) {
            proof {
                assert(model[i as int] == vold[i as int]@);
                lemma_trans_index_at(model, tm.input_state, tm.input_symbols, i as int);
            }
            transitions[i] = t;
            proof {
                lemma_trans_model(transitions@);
                assert forall|k: int| 0 <= k < transitions@.len() implies trans_model(
                    transitions@,
                )[k] == upsert_transition(model, tm)[k] by {
                    if k != i {
                        assert(transitions@[k] == vold[k]);
                    }
                }
                assert(trans_model(transitions@) =~= upsert_transition(model, tm));
            }
            return ;
        }
        i += 1;
    }
    proof {
        lemma_trans_index(model, tm.input_state, tm.input_symbols);
    }
    transitions.push(t);
    proof {
        lemma_trans_model(transitions@);
        assert forall|k: int| 0 <= k < transitions@.len() implies trans_model(transitions@)[k]
            == upsert_transition(model, tm)[k] by {
            if k < vold.len() {
                assert(transitions@[k] == vold[k]);
            } else {
                assert(transitions@[k] == t);
            }
        }
        assert(trans_model(transitions@) =~= upsert_transition(model, tm));
    }
}

/// The live parser: the automaton's phase, the scratch buffers, the
/// registries built so far, and the rule currently being read.
pub(crate) struct Parser {
    pub(crate) phase: Phase,
    pub(crate) buffer: String,
    pub(crate) flags_buffer: String,
    pub(crate) initial_state: Option<String>,
    pub(crate) alphabet: Vec<String>,
    pub(crate) tapes: Vec<Tape>,
    pub(crate) states: Vec<State>,
    pub(crate) state_is_final: bool,
    pub(crate) state_is_initial: bool,
    pub(crate) transitions: Vec<Transition>,
    pub(crate) state_input: String,
    pub(crate) symbols_input: Vec<String>,
    pub(crate) state_output: String,
    pub(crate) symbols_output: Vec<String>,
    pub(crate) moves: Vec<Move>,
    pub(crate) line: usize,
}

impl View for Parser {
    type V = ParserModel;

    closed spec fn view(&self) -> ParserModel {
        ParserModel {
            phase: self.phase,
            buffer: self.buffer@,
            flags_buffer: self.flags_buffer@,
            initial_state: match self.initial_state {
                Some(s) => Some(s@),
                None => None,
            },
            alphabet: self.alphabet.deep_view(),
            tapes: tapes_model(self.tapes@),
            states: states_model(self.states@),
            state_is_final: self.state_is_final,
            state_is_initial: self.state_is_initial,
            transitions: trans_model(self.transitions@),
            state_input: self.state_input@,
            symbols_input: self.symbols_input.deep_view(),
            state_output: self.state_output@,
            symbols_output: self.symbols_output.deep_view(),
            moves: self.moves@,
            line: self.line as nat,
        }
    }
}

impl Parser {
    fn new() -> (r: Parser)
        ensures
            r@ == init_parser(),
    {
        let r = Parser {
            phase: Phase::Begin,
            buffer: String::new(),
            flags_buffer: String::new(),
            initial_state: None,
            alphabet: Vec::new(),
            tapes: Vec::new(),
            states: Vec::new(),
            state_is_final: false,
            state_is_initial: false,
            transitions: Vec::new(),
            state_input: String::new(),
            symbols_input: Vec::new(),
            state_output: String::new(),
            symbols_output: Vec::new(),
            moves: Vec::new(),
            line: 1,
        };
        proof {
            assert(r@ =~= init_parser());
        }
        r
    }

    /// Feeds one character to the automaton.
    fn advance(&mut self, c: char) -> (r: Result<(), ParseError>)
        requires
            old(self)@.line < usize::MAX,
        ensures
            match r {
                Ok(()) => step_char_spec(old(self)@, c) == Ok::<ParserModel, ParseErrorModel>(
                    final(self)@,
                ) && final(self)@.line <= old(self)@.line + 1,
                Err(e) => step_char_spec(old(self)@, c) == Err::<ParserModel, ParseErrorModel>(e@),
            },
    {
        if c == '\n' {
            self.line = self.line + 1;
        }
        let ghost p = (if c == '\n' {
            ParserModel { line: old(self)@.line + 1, ..old(self)@ }
        } else {
            old(self)@
        });
        proof {
            assert(self@ =~= p);
        }
        match self.phase {
            Phase::Begin => {
                if c == ' ' {
                    if str_eq(self.buffer.as_str(), "alphabet") {
                        self.phase = Phase::Alphabet;
                        self.buffer = String::new();
                        proof {
                            assert(self@ =~= (ParserModel {
                                phase: Phase::Alphabet,
                                buffer: Seq::empty(),
                                ..p
                            }));
                        }
                        Ok(())
                    } else if str_eq(self.buffer.as_str(), "tapes") {
                        self.phase = Phase::Tapes;
                        self.buffer = String::new();
                        proof {
                            assert(self@ =~= (ParserModel {
                                phase: Phase::Tapes,
                                buffer: Seq::empty(),
                                ..p
                            }));
                        }
                        Ok(())
                    } else if str_eq(self.buffer.as_str(), "states") {
                        self.phase = Phase::States;
                        self.buffer = String::new();
                        proof {
                            assert(self@ =~= (ParserModel {
                                phase: Phase::States,
                                buffer: Seq::empty(),
                                ..p
                            }));
                        }
                        Ok(())
                    } else if str_eq(self.buffer.as_str(), "#") {
                        self.phase = Phase::Comment;
                        self.buffer = String::new();
                        proof {
                            assert(self@ =~= (ParserModel {
                                phase: Phase::Comment,
                                buffer: Seq::empty(),
                                ..p
                            }));
                        }
                        Ok(())
                    } else {
                        Err(ParseError {
                            kind: ParseErrorKind::UnknownCommand,
                            line: self.line,
                            token: self.buffer.clone(),
                        })
                    }
                } else if c == '[' {
                    self.phase = Phase::InputState;
                    self.buffer = String::new();
                    proof {
                        assert(self@ =~= (ParserModel {
                            phase: Phase::InputState,
                            buffer: Seq::empty(),
                            ..p
                        }));
                    }
                    Ok(())
                } else {
                    push_char(&mut self.buffer, c);
                    proof {
                        assert(self@ =~= (ParserModel { buffer: p.buffer.push(c), ..p }));
                    }
                    Ok(())
                }
            },
            Phase::Comment => {
                if c == '\n' {
                    self.phase = Phase::Begin;
                    proof {
                        assert(self@ =~= (ParserModel { phase: Phase::Begin, ..p }));
                    }
                }
                Ok(())
            },
            Phase::Alphabet => {
                if c == ' ' || c == '\n' {
                    let ghost prev = self.alphabet.deep_view();
                    let mut word = String::new();
                    core::mem::swap(&mut word, &mut self.buffer);
                    self.alphabet.push(word);
                    if c == '\n' {
                        self.phase = Phase::Begin;
                    }
                    proof {
                        assert(self.alphabet.deep_view() =~= prev.push(p.buffer));
                        assert(self@ =~= (ParserModel {
                            alphabet: p.alphabet.push(p.buffer),
                            buffer: Seq::empty(),
                            phase: if c == '\n' {
                                Phase::Begin
                            } else {
                                Phase::Alphabet
                            },
                            ..p
                        }));
                    }
                    Ok(())
                } else {
                    push_char(&mut self.buffer, c);
                    proof {
                        assert(self@ =~= (ParserModel { buffer: p.buffer.push(c), ..p }));
                    }
                    Ok(())
                }
            },
            Phase::Tapes => {
                if c == ' ' || c == '\n' {
                    let ghost prev = tapes_model(self.tapes@);
                    let mut name = String::new();
                    core::mem::swap(&mut name, &mut self.buffer);
                    let tape = Tape::new(name);
                    self.tapes.push(tape);
                    if c == '\n' {
                        self.phase = Phase::Begin;
                    }
                    proof {
                        lemma_tapes_model(self.tapes@);
                        assert(tapes_model(self.tapes@) =~= prev.push(fresh_tape(p.buffer)));
                        assert(self@ =~= (ParserModel {
                            tapes: p.tapes.push(fresh_tape(p.buffer)),
                            buffer: Seq::empty(),
                            phase: if c == '\n' {
                                Phase::Begin
                            } else {
                                Phase::Tapes
                            },
                            ..p
                        }));
                    }
                    Ok(())
                } else {
                    push_char(&mut self.buffer, c);
                    proof {
                        assert(self@ =~= (ParserModel { buffer: p.buffer.push(c), ..p }));
                    }
                    Ok(())
                }
            },
            Phase::States => {
                if c == ' ' || c == '\n' {
                    if self.state_is_initial && self.initial_state.is_some() {
                        return Err(ParseError {
                            kind: ParseErrorKind::MultipleInitialStates,
                            line: self.line,
                            token: self.buffer.clone(),
                        });
                    }
                    if self.state_is_initial {
                        self.initial_state = Some(self.buffer.clone());
                    }
                    let mut name = String::new();
                    core::mem::swap(&mut name, &mut self.buffer);
                    let st = State { name, is_final: self.state_is_final, is_initial: self.state_is_initial };
                    let ghost stm = st@;
                    upsert_state_exec(&mut self.states, st);
                    self.state_is_final = false;
                    self.state_is_initial = false;
                    if c == '\n' {
                        self.phase = Phase::Begin;
                    }
                    proof {
                        assert(self@ =~= (ParserModel {
                            initial_state: if p.state_is_initial {
                                Some(p.buffer)
                            } else {
                                p.initial_state
                            },
                            states: upsert_state(p.states, stm),
                            buffer: Seq::empty(),
                            state_is_final: false,
                            state_is_initial: false,
                            phase: if c == '\n' {
                                Phase::Begin
                            } else {
                                Phase::States
                            },
                            ..p
                        }));
                    }
                    Ok(())
                } else if c == '(' {
                    self.phase = Phase::StateOptions;
                    proof {
                        assert(self@ =~= (ParserModel { phase: Phase::StateOptions, ..p }));
                    }
                    Ok(())
                } else {
                    push_char(&mut self.buffer, c);
                    proof {
                        assert(self@ =~= (ParserModel { buffer: p.buffer.push(c), ..p }));
                    }
                    Ok(())
                }
            },
            Phase::StateOptions => {
                if c == ' ' || c == ')' {
                    if str_eq(self.flags_buffer.as_str(), "initial") {
                        self.state_is_initial = true;
                        self.flags_buffer = String::new();
                        if c == ')' {
                            self.phase = Phase::States;
                        }
                        proof {
                            assert(self@ =~= (ParserModel {
                                state_is_initial: true,
                                flags_buffer: Seq::empty(),
                                phase: if c == ')' {
                                    Phase::States
                                } else {
                                    Phase::StateOptions
                                },
                                ..p
                            }));
                        }
                        Ok(())
                    } else if str_eq(self.flags_buffer.as_str(), "final") {
                        self.state_is_final = true;
                        self.flags_buffer = String::new();
                        if c == ')' {
                            self.phase = Phase::States;
                        }
                        proof {
                            assert(self@ =~= (ParserModel {
                                state_is_final: true,
                                flags_buffer: Seq::empty(),
                                phase: if c == ')' {
                                    Phase::States
                                } else {
                                    Phase::StateOptions
                                },
                                ..p
                            }));
                        }
                        Ok(())
                    } else {
                        Err(ParseError {
                            kind: ParseErrorKind::UnknownStateOption,
                            line: self.line,
                            token: self.flags_buffer.clone(),
                        })
                    }
                } else if c == '\n' {
                    Err(ParseError {
                        kind: ParseErrorKind::UnexpectedLineBreak,
                        line: self.line,
                        token: String::new(),
                    })
                } else {
                    push_char(&mut self.flags_buffer, c);
                    proof {
                        assert(self@ =~= (ParserModel {
                            flags_buffer: p.flags_buffer.push(c),
                            ..p
                        }));
                    }
                    Ok(())
                }
            },
            Phase::InputState => {
                if c == ' ' {
                    if states_contain(&self.states, self.buffer.as_str()) {
                        let mut name = String::new();
                        core::mem::swap(&mut name, &mut self.buffer);
                        self.state_input = name;
                        self.phase = Phase::InputSymbol;
                        proof {
                            assert(self@ =~= (ParserModel {
                                state_input: p.buffer,
                                buffer: Seq::empty(),
                                phase: Phase::InputSymbol,
                                ..p
                            }));
                        }
                        Ok(())
                    } else {
                        Err(ParseError {
                            kind: ParseErrorKind::UndefinedState,
                            line: self.line,
                            token: self.buffer.clone(),
                        })
                    }
                } else if c == '[' {
                    Ok(())
                } else {
                    push_char(&mut self.buffer, c);
                    proof {
                        assert(self@ =~= (ParserModel { buffer: p.buffer.push(c), ..p }));
                    }
                    Ok(())
                }
            },
            Phase::InputSymbol => {
                if c == ' ' {
                    let ghost prev = self.symbols_input.deep_view();
                    let mut sym = String::new();
                    core::mem::swap(&mut sym, &mut self.buffer);
                    self.symbols_input.push(sym);
                    proof {
                        assert(self.symbols_input.deep_view() =~= prev.push(p.buffer));
                        assert(self@ =~= (ParserModel {
                            symbols_input: p.symbols_input.push(p.buffer),
                            buffer: Seq::empty(),
                            ..p
                        }));
                    }
                    Ok(())
                } else if c == ']' {
                    let ghost prev = self.symbols_input.deep_view();
                    let mut sym = String::new();
                    core::mem::swap(&mut sym, &mut self.buffer);
                    self.symbols_input.push(sym);
                    proof {
                        assert(self.symbols_input.deep_view() =~= prev.push(p.buffer));
                    }
                    if self.symbols_input.len() == self.tapes.len() {
                        self.phase = Phase::BetweenClauses;
                        proof {
                            assert(self@ =~= (ParserModel {
                                symbols_input: p.symbols_input.push(p.buffer),
                                buffer: Seq::empty(),
                                phase: Phase::BetweenClauses,
                                ..p
                            }));
                        }
                        Ok(())
                    } else {
                        Err(ParseError {
                            kind: ParseErrorKind::ArityMismatch,
                            line: self.line,
                            token: String::new(),
                        })
                    }
                } else if c == '[' {
                    Ok(())
                } else {
                    push_char(&mut self.buffer, c);
                    proof {
                        assert(self@ =~= (ParserModel { buffer: p.buffer.push(c), ..p }));
                    }
                    Ok(())
                }
            },
            Phase::BetweenClauses => {
                if c == '[' {
                    self.phase = Phase::OutputState;
                    proof {
                        assert(self@ =~= (ParserModel { phase: Phase::OutputState, ..p }));
                    }
                }
                Ok(())
            },
            Phase::OutputState => {
                if c == ' ' {
                    if states_contain(&self.states, self.buffer.as_str()) {
                        let mut name = String::new();
                        core::mem::swap(&mut name, &mut self.buffer);
                        self.state_output = name;
                        self.phase = Phase::OutputSymbol;
                        proof {
                            assert(self@ =~= (ParserModel {
                                state_output: p.buffer,
                                buffer: Seq::empty(),
                                phase: Phase::OutputSymbol,
                                ..p
                            }));
                        }
                        Ok(())
                    } else {
                        Err(ParseError {
                            kind: ParseErrorKind::UndefinedState,
                            line: self.line,
                            token: self.buffer.clone(),
                        })
                    }
                } else if c == '[' {
                    self.buffer = String::new();
                    proof {
                        assert(self@ =~= (ParserModel { buffer: Seq::empty(), ..p }));
                    }
                    Ok(())
                } else if c == ']' {
                    self.phase = Phase::Begin;
                    proof {
                        assert(self@ =~= (ParserModel { phase: Phase::Begin, ..p }));
                    }
                    Ok(())
                } else {
                    push_char(&mut self.buffer, c);
                    proof {
                        assert(self@ =~= (ParserModel { buffer: p.buffer.push(c), ..p }));
                    }
                    Ok(())
                }
            },
            Phase::OutputSymbol => {
                if c == ' ' {
                    let ghost prev = self.symbols_output.deep_view();
                    let mut sym = String::new();
                    core::mem::swap(&mut sym, &mut self.buffer);
                    self.symbols_output.push(sym);
                    proof {
                        assert(self.symbols_output.deep_view() =~= prev.push(p.buffer));
                    }
                    if self.symbols_output.len() == self.tapes.len() {
                        self.phase = Phase::OutputMoves;
                    }
                    proof {
                        assert(self@ =~= (ParserModel {
                            symbols_output: p.symbols_output.push(p.buffer),
                            buffer: Seq::empty(),
                            phase: if p.symbols_output.push(p.buffer).len() == p.tapes.len() {
                                Phase::OutputMoves
                            } else {
                                Phase::OutputSymbol
                            },
                            ..p
                        }));
                    }
                    Ok(())
                } else if c == '\n' {
                    Err(ParseError {
                        kind: ParseErrorKind::UnexpectedLineBreak,
                        line: self.line - 1,
                        token: String::new(),
                    })
                } else {
                    push_char(&mut self.buffer, c);
                    proof {
                        assert(self@ =~= (ParserModel { buffer: p.buffer.push(c), ..p }));
                    }
                    Ok(())
                }
            },
            Phase::OutputMoves => {
                if c == ' ' {
                    match Move::new(self.buffer.as_str()) {
                        Some(m) => {
                            self.moves.push(m);
                            self.buffer = String::new();
                            proof {
                                assert(self@ =~= (ParserModel {
                                    moves: p.moves.push(m),
                                    buffer: Seq::empty(),
                                    ..p
                                }));
                            }
                            Ok(())
                        },
                        None => Err(ParseError {
                            kind: ParseErrorKind::UnknownMove,
                            line: self.line,
                            token: self.buffer.clone(),
                        }),
                    }
                } else if c == ']' {
                    match Move::new(self.buffer.as_str()) {
                        Some(m) => {
                            self.moves.push(m);
                            self.buffer = String::new();
                            if self.moves.len() == self.tapes.len() && self.symbols_input.len()
                                == self.tapes.len() && self.symbols_output.len()
                                == self.tapes.len() {
                                let mut input_state = String::new();
                                core::mem::swap(&mut input_state, &mut self.state_input);
                                let mut output_state = String::new();
                                core::mem::swap(&mut output_state, &mut self.state_output);
                                let mut input_symbols: Vec<String> = Vec::new();
                                core::mem::swap(&mut input_symbols, &mut self.symbols_input);
                                let mut output_symbols: Vec<String> = Vec::new();
                                core::mem::swap(&mut output_symbols, &mut self.symbols_output);
                                let mut moves: Vec<Move> = Vec::new();
                                core::mem::swap(&mut moves, &mut self.moves);
                                let t = Transition {
                                    input_state,
                                    input_symbols,
                                    output_state,
                                    output_symbols,
                                    moves,
                                };
                                let ghost tm = t@;
                                upsert_transition_exec(&mut self.transitions, t);
                                proof {
                                    assert(self@ =~= (ParserModel {
                                        transitions: upsert_transition(p.transitions, tm),
                                        buffer: Seq::empty(),
                                        moves: Seq::empty(),
                                        state_input: Seq::empty(),
                                        state_output: Seq::empty(),
                                        symbols_input: Seq::empty(),
                                        symbols_output: Seq::empty(),
                                        ..p
                                    }));
                                }
                                Ok(())
                            } else {
                                Err(ParseError {
                                    kind: ParseErrorKind::ArityMismatch,
                                    line: self.line,
                                    token: String::new(),
                                })
                            }
                        },
                        None => Err(ParseError {
                            kind: ParseErrorKind::UnknownMove,
                            line: self.line,
                            token: self.buffer.clone(),
                        }),
                    }
                } else if c == '\n' {
                    self.phase = Phase::Begin;
                    proof {
                        assert(self@ =~= (ParserModel { phase: Phase::Begin, ..p }));
                    }
                    Ok(())
                } else {
                    push_char(&mut self.buffer, c);
                    proof {
                        assert(self@ =~= (ParserModel { buffer: p.buffer.push(c), ..p }));
                    }
                    Ok(())
                }
            },
        }
    }
}

impl TuringMachine {
    /// Parses machine-definition source text: the machine it describes,
    /// or the first error, with its kind, line and offending token.
    /// The result is exactly `parse_spec` of the text, and a parsed
    /// machine is well formed.
    #[verifier::loop_isolation(false)]
    pub fn parse(program: &str) -> (r: Result<TuringMachine, ParseError>)
        requires
            program@.len() < usize::MAX,
        ensures
            match r {
                Ok(m) => parse_spec(program@) == Ok::<MachineModel, ParseErrorModel>(m@)
                    && m@.wf(),
                Err(e) => parse_spec(program@) == Err::<MachineModel, ParseErrorModel>(e@),
            },
    {
        let n = program.unicode_len();
        let mut parser = Parser::new();
        proof {
            assert(program@.subrange(0, n as int) =~= program@);
        }
        let mut i: usize = 0;
        while i < n
            invariant
                i <= n,
                parser@.line <= 1 + i,
                parse_chars(parser@, program@.subrange(i as int, n as int)) == parse_chars(
                    init_parser(),
                    program@,
                ),
            decreases n - i,
        {
            let c = program.get_char(i);
            let ghost rest = program@.subrange(i as int, n as int);
            proof {
                assert(rest[0] == c);
                assert(rest.subrange(1, rest.len() as int) =~= program@.subrange(
                    i + 1,
                    n as int,
                ));
            }
            match parser.advance(c) {
                Ok(()) => {},
                Err(e) => {
                    return Err(e);
                },
            }
            i += 1;
        }
        proof {
            assert(program@.subrange(n as int, n as int) =~= Seq::<char>::empty());
            assert(parse_chars(init_parser(), program@) == Ok::<ParserModel, ParseErrorModel>(
                parser@,
            ));
            assert(parser_inv(init_parser()));
            lemma_parse_chars_inv(init_parser(), program@);
        }
        let ghost pm = parser@;
        let Parser { initial_state, states, tapes, transitions, line, .. } = parser;
        match initial_state {
            Some(init) => {
                let m = TuringMachine::new(init, states, tapes, transitions);
                proof {
                    assert(m@ =~= machine_of(pm, pm.initial_state->Some_0));
                    lemma_parse_ok_wf(program@);
                }
                Ok(m)
            },
            None => Err(ParseError {
                kind: ParseErrorKind::NoInitialState,
                line,
                token: String::new(),
            }),
        }
    }
}

// ---------------------------------------------------------------------
// Laws of parsing
// ---------------------------------------------------------------------

/// Parsing is deterministic: two successful parses of the same source
/// yield machines with identical state sets, tape lists and transition
/// tables — they are one machine.
pub proof fn lemma_parse_deterministic(s: Seq<char>, m1: MachineModel, m2: MachineModel)
    requires
        parse_spec(s) == Ok::<MachineModel, ParseErrorModel>(m1),
        parse_spec(s) == Ok::<MachineModel, ParseErrorModel>(m2),
    ensures
        m1.states == m2.states,
        m1.tapes == m2.tapes,
        m1.transitions == m2.transitions,
        m1 == m2,
{
}

/// A successfully parsed machine has a registered initial state, and at
/// most one state carries the initial flag: any flagged state is the
/// initial state itself, so two flagged states are one.
pub proof fn lemma_single_initial(s: Seq<char>, m: MachineModel)
    requires
        parse_spec(s) == Ok::<MachineModel, ParseErrorModel>(m),
    ensures
        state_index(m.states, m.initial_state) >= 0,
        forall|i: int|
            0 <= i < m.states.len() && (#[trigger] m.states[i]).is_initial ==> m.states[i].name
                == m.initial_state,
        forall|i: int, j: int|
            0 <= i < m.states.len() && 0 <= j < m.states.len() && (#[trigger] m.states[i]).is_initial
                && (#[trigger] m.states[j]).is_initial ==> i == j,
{
    assert(parser_inv(init_parser()));
    lemma_parse_chars_inv(init_parser(), s);
    let p = parse_chars(init_parser(), s)->Ok_0;
    lemma_has_state_index(p.states, m.initial_state);
    assert forall|i: int, j: int|
        0 <= i < m.states.len() && 0 <= j < m.states.len() && (#[trigger] m.states[i]).is_initial
            && (#[trigger] m.states[j]).is_initial implies i == j by {
        assert(m.states[i].name == m.initial_state);
        assert(m.states[j].name == m.initial_state);
    }
}

/// A parse in which no state was ever flagged initial fails with
/// `NoInitialState`: a machine is only built once `initial_state` is
/// set, and only the `initial` option ever sets it.
pub proof fn lemma_no_initial_fails(s: Seq<char>)
    requires
        parse_chars(init_parser(), s) matches Ok(p) && p.initial_state is None,
    ensures
        parse_spec(s) matches Err(e) && e.kind == ParseErrorKind::NoInitialState,
{
}

/// Flagging a second state initial is fatal: completing a state
/// declaration that carries the `initial` option while an initial state
/// is already recorded stops the parse with `MultipleInitialStates`.
pub proof fn lemma_second_initial_fails(p: ParserModel, c: char)
    requires
        p.phase == Phase::States,
        c == ' ' || c == '\n',
        p.state_is_initial,
        p.initial_state is Some,
    ensures
        step_char_spec(p, c) matches Err(e) && e.kind == ParseErrorKind::MultipleInitialStates,
{
}

/// In every rule of a successfully parsed machine the write tuple and
/// the move tuple have exactly the arity of the read tuple — the tape
/// count declared when the rule was read — and never more than the
/// machine's tape count.
pub proof fn lemma_transition_arity(s: Seq<char>, m: MachineModel)
    requires
        parse_spec(s) == Ok::<MachineModel, ParseErrorModel>(m),
    ensures
        forall|i: int|
            0 <= i < m.transitions.len() ==> (#[trigger] m.transitions[i]).output_symbols.len()
                == m.transitions[i].input_symbols.len() && m.transitions[i].moves.len()
                == m.transitions[i].input_symbols.len() && m.transitions[i].input_symbols.len()
                <= m.tapes.len(),
{
    assert(parser_inv(init_parser()));
    lemma_parse_chars_inv(init_parser(), s);
    let p = parse_chars(init_parser(), s)->Ok_0;
    assert forall|i: int|
        0 <= i < m.transitions.len() implies (#[trigger] m.transitions[i]).output_symbols.len()
        == m.transitions[i].input_symbols.len() && m.transitions[i].moves.len()
        == m.transitions[i].input_symbols.len() && m.transitions[i].input_symbols.len()
        <= m.tapes.len() by {
        assert(trans_ok(p.transitions[i], p.states, p.tapes.len() as int));
    }
}

} // verus!
