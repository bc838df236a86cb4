//! The machine's data model and its execution engine: tapes, states,
//! moves, transitions, and the `reset` / `step` / `done` operations.
//!
//! Each executable type has a mathematical view; the engine's contracts
//! are stated over those views through the deterministic spec function
//! `step_spec`.

use vstd::prelude::*;

use crate::text::{char_to_string, lemma_deep_view_elems, push_char, str_eq, str_vec_eq};

verus! {

// ---------------------------------------------------------------------
// Reserved symbols
// ---------------------------------------------------------------------

/// The left-boundary marker `>`, the first cell of every tape.
pub open spec fn marker_symbol() -> Seq<char> {
    seq!['>']
}

/// The blank symbol `_`, appended when a tape grows to the right.
pub open spec fn blank_symbol() -> Seq<char> {
    seq!['_']
}

/// The write-sentinel `@`: a write-token meaning "keep the current cell".
pub open spec fn keep_symbol() -> Seq<char> {
    seq!['@']
}

// ---------------------------------------------------------------------
// Moves
// ---------------------------------------------------------------------

/// A per-tape head displacement applied on every step.
#[derive(Clone, Copy, Debug, PartialEq, Eq, Structural)]
pub enum Move {
    Left,
    Right,
    Stay,
}

/// The move denoted by a source token: `->` is `Right`, `<-` is `Left`,
/// `-` is `Stay`; anything else is no move token.
pub open spec fn move_token(s: Seq<char>) -> Option<Move> {
    if s == seq!['-', '>'] {
        Some(Move::Right)
    } else if s == seq!['<', '-'] {
        Some(Move::Left)
    } else if s == seq!['-'] {
        Some(Move::Stay)
    } else {
        None
    }
}

impl Move {
    /// Parses a move token; `None` when the token denotes no move.
    pub fn new(name: &str) -> (r: Option<Move>)
        ensures
            r == move_token(name@),
    {
        proof {
            reveal_strlit("->");
            reveal_strlit("<-");
            reveal_strlit("-");
            assert("->"@ =~= seq!['-', '>']);
            assert("<-"@ =~= seq!['<', '-']);
            assert("-"@ =~= seq!['-']);
        }
        if str_eq(name, "->") {
            Some(Move::Right)
        } else if str_eq(name, "<-") {
            Some(Move::Left)
        } else if str_eq(name, "-") {
            Some(Move::Stay)
        } else {
            None
        }
    }
}

// ---------------------------------------------------------------------
// States
// ---------------------------------------------------------------------

/// The view of a `State`: its name and flags.
#[verifier::ext_equal]
pub struct StateModel {
    pub name: Seq<char>,
    pub is_final: bool,
    pub is_initial: bool,
}

/// A named control location, possibly flagged initial and/or final.
#[derive(Clone, Debug, PartialEq, Eq, Hash)]
pub struct State {
    pub name: String,
    pub is_final: bool,
    pub is_initial: bool,
}

impl View for State {
    type V = StateModel;

    open spec fn view(&self) -> StateModel {
        StateModel { name: self.name@, is_final: self.is_final, is_initial: self.is_initial }
    }
}

impl State {
    pub fn new(name: &str, is_final: bool, is_initial: bool) -> (r: State)
        ensures
            r@ == (StateModel { name: name@, is_final, is_initial }),
    {
        State { name: name.to_owned(), is_final, is_initial }
    }
}

/// The index of the first state named `name`, or `-1` when no state
/// carries that name.
pub open spec fn state_index(states: Seq<StateModel>, name: Seq<char>) -> int
    decreases states.len(),
{
    if states.len() == 0 {
        -1
    } else if states[0].name == name {
        0
    } else {
        let r = state_index(states.drop_first(), name);
        if r < 0 {
            -1
        } else {
            r + 1
        }
    }
}

/// What `state_index` returns: a valid first-match index, or `-1` when
/// no state carries the name.
pub proof fn lemma_state_index(states: Seq<StateModel>, name: Seq<char>)
    ensures
        -1 <= state_index(states, name) < states.len(),
        state_index(states, name) >= 0 ==> states[state_index(states, name)].name == name,
        state_index(states, name) >= 0 ==> forall|j: int|
            0 <= j < state_index(states, name) ==> states[j].name != name,
        state_index(states, name) == -1 ==> forall|j: int|
            0 <= j < states.len() ==> states[j].name != name,
    decreases states.len(),
{
    if states.len() > 0 && states[0].name != name {
        lemma_state_index(states.drop_first(), name);
        assert(forall|j: int|
            1 <= j < states.len() ==> states[j] == states.drop_first()[j - 1]);
    }
}

/// Whether some state carries the given name.
pub open spec fn has_state(states: Seq<StateModel>, name: Seq<char>) -> bool {
    exists|i: int| 0 <= i < states.len() && states[i].name == name
}

/// `has_state` and a non-negative `state_index` agree.
pub proof fn lemma_has_state_index(states: Seq<StateModel>, name: Seq<char>)
    ensures
        has_state(states, name) <==> state_index(states, name) >= 0,
{
    lemma_state_index(states, name);
    if state_index(states, name) >= 0 {
        assert(has_state(states, name));
    }
    if has_state(states, name) {
        let i = choose|i: int| 0 <= i < states.len() && states[i].name == name;
        assert(states[i].name == name);
    }
}

/// A scan that stopped at the first match found exactly `state_index`.
pub proof fn lemma_state_index_at(states: Seq<StateModel>, name: Seq<char>, i: int)
    requires
        0 <= i < states.len(),
        states[i].name == name,
        forall|j: int| 0 <= j < i ==> states[j].name != name,
    ensures
        state_index(states, name) == i,
    decreases states.len(),
{
    if i > 0 {
        lemma_state_index_at(states.drop_first(), name, i - 1);
    }
}

// ---------------------------------------------------------------------
// Tapes
// ---------------------------------------------------------------------

/// The view of a `Tape`: its name, cell contents, and cursor.
#[verifier::ext_equal]
pub struct TapeModel {
    pub name: Seq<char>,
    pub content: Seq<Seq<char>>,
    pub cursor: nat,
}

impl TapeModel {
    /// A tape is well formed when it holds at least one cell and its
    /// cursor points at a cell.
    pub open spec fn wf(self) -> bool {
        &&& self.content.len() >= 1
        &&& self.cursor < self.content.len()
    }
}

/// The content a tape holds after it is seeded with the string `s`:
/// the boundary marker followed by one cell per character.
pub open spec fn seeded_content(s: Seq<char>) -> Seq<Seq<char>> {
    seq![marker_symbol()] + Seq::new(s.len(), |j: int| seq![s[j]])
}

/// An unbounded-to-the-right sequence of symbol cells with a cursor;
/// cell `0` starts out as the boundary marker `>`.
#[derive(Clone, Debug, PartialEq, Eq)]
pub struct Tape {
    pub name: String,
    pub content: Vec<String>,
    pub cursor: usize,
}

impl View for Tape {
    type V = TapeModel;

    open spec fn view(&self) -> TapeModel {
        TapeModel {
            name: self.name@,
            content: self.content.deep_view(),
            cursor: self.cursor as nat,
        }
    }
}

impl Tape {
    /// A fresh tape: a single boundary-marker cell, cursor at `0`.
    pub fn new(name: String) -> (r: Tape)
        ensures
            r@ == (TapeModel { name: name@, content: seq![marker_symbol()], cursor: 0nat }),
            r@.wf(),
    {
        proof {
            reveal_strlit(">");
        }
        let mut content: Vec<String> = Vec::new();
        content.push(">".to_owned());
        let r = Tape { name, content, cursor: 0 };
        proof {
            assert(">"@ =~= marker_symbol());
            assert(r@.content =~= seq![marker_symbol()]);
        }
        r
    }

    /// Replaces the tape's content with the boundary marker followed by
    /// one cell per character of `content`, and rewinds the cursor.
    pub fn reset(&mut self, content: &str)
        ensures
            final(self)@ == (TapeModel {
                name: old(self)@.name,
                content: seeded_content(content@),
                cursor: 0nat,
            }),
            final(self)@.wf(),
    {
        proof {
            reveal_strlit(">");
        }
        let n = content.unicode_len();
        let mut cells: Vec<String> = Vec::new();
        cells.push(">".to_owned());
        proof {
            assert(">"@ =~= marker_symbol());
        }
        let mut i: usize = 0;
        while i < n
            invariant
                n == content@.len(),
                i <= n,
                cells@.len() == i + 1,
                cells@[0]@ == marker_symbol(),
                forall|j: int| 1 <= j <= i ==> cells@[j]@ == seq![content@[j - 1]],
            decreases n - i,
        {
            let c = content.get_char(i);
            cells.push(char_to_string(c));
            i += 1;
        }
        self.content = cells;
        self.cursor = 0;
        proof {
            assert(final(self)@.content =~= seeded_content(content@));
        }
    }
}

// ---------------------------------------------------------------------
// Transitions
// ---------------------------------------------------------------------

/// The view of a `Transition`.
#[verifier::ext_equal]
pub struct TransitionModel {
    pub input_state: Seq<char>,
    pub input_symbols: Seq<Seq<char>>,
    pub output_state: Seq<char>,
    pub output_symbols: Seq<Seq<char>>,
    pub moves: Seq<Move>,
}

impl TransitionModel {
    /// Within one rule the three tuples share one arity, and both state
    /// names are registered.
    pub open spec fn wf(self, states: Seq<StateModel>) -> bool {
        &&& self.output_symbols.len() == self.input_symbols.len()
        &&& self.moves.len() == self.input_symbols.len()
        &&& state_index(states, self.input_state) >= 0
        &&& state_index(states, self.output_state) >= 0
    }
}

/// A rule mapping (state, per-tape symbol read) to (state, per-tape
/// write-token, per-tape move). Write-tokens are literal symbols or the
/// sentinel `@`.
#[derive(Clone, Debug, PartialEq, Eq)]
pub struct Transition {
    pub input_state: String,
    pub input_symbols: Vec<String>,
    pub output_state: String,
    pub output_symbols: Vec<String>,
    pub moves: Vec<Move>,
}

impl View for Transition {
    type V = TransitionModel;

    open spec fn view(&self) -> TransitionModel {
        TransitionModel {
            input_state: self.input_state@,
            input_symbols: self.input_symbols.deep_view(),
            output_state: self.output_state@,
            output_symbols: self.output_symbols.deep_view(),
            moves: self.moves@,
        }
    }
}

/// The index of the first transition keyed by (`state`, `symbols`), or
/// `-1` when no transition carries that key.
pub open spec fn trans_index(
    transitions: Seq<TransitionModel>,
    state: Seq<char>,
    symbols: Seq<Seq<char>>,
) -> int
    decreases transitions.len(),
{
    if transitions.len() == 0 {
        -1
    } else if transitions[0].input_state == state && transitions[0].input_symbols == symbols {
        0
    } else {
        let r = trans_index(transitions.drop_first(), state, symbols);
        if r < 0 {
            -1
        } else {
            r + 1
        }
    }
}

/// What `trans_index` returns: a valid first-match index, or `-1` when
/// no transition carries the key.
pub proof fn lemma_trans_index(
    transitions: Seq<TransitionModel>,
    state: Seq<char>,
    symbols: Seq<Seq<char>>,
)
    ensures
        -1 <= trans_index(transitions, state, symbols) < transitions.len(),
        trans_index(transitions, state, symbols) >= 0 ==> {
            let t = transitions[trans_index(transitions, state, symbols)];
            t.input_state == state && t.input_symbols == symbols
        },
        trans_index(transitions, state, symbols) >= 0 ==> forall|j: int|
            0 <= j < trans_index(transitions, state, symbols) ==> !(transitions[j].input_state
                == state && transitions[j].input_symbols == symbols),
        trans_index(transitions, state, symbols) == -1 ==> forall|j: int|
            0 <= j < transitions.len() ==> !(transitions[j].input_state == state
                && transitions[j].input_symbols == symbols),
    decreases transitions.len(),
{
    if transitions.len() > 0 && !(transitions[0].input_state == state
        && transitions[0].input_symbols == symbols) {
        lemma_trans_index(transitions.drop_first(), state, symbols);
        assert(forall|j: int|
            1 <= j < transitions.len() ==> transitions[j] == transitions.drop_first()[j - 1]);
    }
}

/// A scan that stopped at the first match found exactly `trans_index`.
pub proof fn lemma_trans_index_at(
    transitions: Seq<TransitionModel>,
    state: Seq<char>,
    symbols: Seq<Seq<char>>,
    i: int,
)
    requires
        0 <= i < transitions.len(),
        transitions[i].input_state == state,
        transitions[i].input_symbols == symbols,
        forall|j: int| 0 <= j < i ==> !(transitions[j].input_state == state
            && transitions[j].input_symbols == symbols),
    ensures
        trans_index(transitions, state, symbols) == i,
    decreases transitions.len(),
{
    if i > 0 {
        lemma_trans_index_at(transitions.drop_first(), state, symbols, i - 1);
    }
}


// ---------------------------------------------------------------------
// Vector views
// ---------------------------------------------------------------------

/// The views of a state vector, in order.
pub open spec fn states_model(v: Seq<State>) -> Seq<StateModel> {
    v.map_values(|s: State| s@)
}

/// The views of a tape vector, in order.
pub open spec fn tapes_model(v: Seq<Tape>) -> Seq<TapeModel> {
    v.map_values(|t: Tape| t@)
}

/// The views of a transition vector, in order.
pub open spec fn trans_model(v: Seq<Transition>) -> Seq<TransitionModel> {
    v.map_values(|t: Transition| t@)
}

pub proof fn lemma_states_model(v: Seq<State>)
    ensures
        states_model(v).len() == v.len(),
        forall|k: int| #![trigger states_model(v)[k]] 0 <= k < v.len() ==> states_model(v)[k] == v[k]@,
{
}

pub proof fn lemma_tapes_model(v: Seq<Tape>)
    ensures
        tapes_model(v).len() == v.len(),
        forall|k: int| #![trigger tapes_model(v)[k]] 0 <= k < v.len() ==> tapes_model(v)[k] == v[k]@,
{
}

pub proof fn lemma_trans_model(v: Seq<Transition>)
    ensures
        trans_model(v).len() == v.len(),
        forall|k: int| #![trigger trans_model(v)[k]] 0 <= k < v.len() ==> trans_model(v)[k] == v[k]@,
{
}

// ---------------------------------------------------------------------
// The machine
// ---------------------------------------------------------------------

/// The view of a `TuringMachine`.
#[verifier::ext_equal]
pub struct MachineModel {
    pub initial_state: Seq<char>,
    pub states: Seq<StateModel>,
    pub tapes: Seq<TapeModel>,
    pub transitions: Seq<TransitionModel>,
    pub current_state: Seq<char>,
}

impl MachineModel {
    /// The machine's invariant: state names are unique, the initial and
    /// current states are registered, every tape is well formed, every
    /// transition is well formed, and transition keys are unique.
    pub open spec fn wf(self) -> bool {
        &&& forall|i: int, j: int|
            0 <= i < j < self.states.len() ==> self.states[i].name != self.states[j].name
        &&& state_index(self.states, self.initial_state) >= 0
        &&& state_index(self.states, self.current_state) >= 0
        &&& forall|i: int| 0 <= i < self.tapes.len() ==> self.tapes[i].wf()
        &&& forall|i: int|
            0 <= i < self.transitions.len() ==> self.transitions[i].wf(self.states)
        &&& forall|i: int, j: int|
            0 <= i < j < self.transitions.len() ==> !(self.transitions[i].input_state
                == self.transitions[j].input_state && self.transitions[i].input_symbols
                == self.transitions[j].input_symbols)
    }
}

/// A complete machine: the registries built by the parser plus the live
/// execution state (current state, tape contents and cursors).
#[derive(Clone, Debug, PartialEq, Eq)]
pub struct TuringMachine {
    pub initial_state: String,
    pub states: Vec<State>,
    pub transitions: Vec<Transition>,
    pub current_state: String,
    pub tapes: Vec<Tape>,
}

impl View for TuringMachine {
    type V = MachineModel;

    open spec fn view(&self) -> MachineModel {
        MachineModel {
            initial_state: self.initial_state@,
            states: states_model(self.states@),
            tapes: tapes_model(self.tapes@),
            transitions: trans_model(self.transitions@),
            current_state: self.current_state@,
        }
    }
}

// ---------------------------------------------------------------------
// Execution
// ---------------------------------------------------------------------

/// An execution-time failure; both are fatal to the run.
#[derive(Clone, Copy, Debug, PartialEq, Eq, Structural)]
pub enum RuntimeError {
    /// No rule matches the current (state, read-symbols) key.
    MissingTransition,
    /// A `Left` move was attempted with the cursor already at `0`.
    TapeUnderflow,
}

/// The symbol under each tape's cursor, in tape order.
pub open spec fn read_symbols_spec(m: MachineModel) -> Seq<Seq<char>> {
    Seq::new(m.tapes.len(), |i: int| m.tapes[i].content[m.tapes[i].cursor as int])
}

/// The cell contents after one write: the sentinel `@` keeps the cell,
/// any other token overwrites it.
pub open spec fn write_cell(content: Seq<Seq<char>>, cursor: int, w: Seq<char>) -> Seq<Seq<char>> {
    if w == keep_symbol() {
        content
    } else {
        content.update(cursor, w)
    }
}

/// One head move on a tape. `Right` at the last cell appends one blank
/// cell; the caller rules out `Left` at cursor `0`.
pub open spec fn move_tape(t: TapeModel, mv: Move) -> TapeModel {
    match mv {
        Move::Left => TapeModel { cursor: (t.cursor - 1) as nat, ..t },
        Move::Right => if t.cursor + 1 == t.content.len() {
            TapeModel {
                content: t.content.push(blank_symbol()),
                cursor: (t.cursor + 1) as nat,
                ..t
            }
        } else {
            TapeModel { cursor: (t.cursor + 1) as nat, ..t }
        },
        Move::Stay => t,
    }
}

/// One step's effect on one tape: the write, then the move.
pub open spec fn apply_to_tape(t: TapeModel, w: Seq<char>, mv: Move) -> TapeModel {
    move_tape(TapeModel { content: write_cell(t.content, t.cursor as int, w), ..t }, mv)
}

/// What one step of the machine yields: the next machine, or the
/// runtime error that stops the run with the machine untouched.
pub open spec fn step_spec(m: MachineModel) -> Result<MachineModel, RuntimeError> {
    let key = read_symbols_spec(m);
    let ti = trans_index(m.transitions, m.current_state, key);
    if ti < 0 {
        Err(RuntimeError::MissingTransition)
    } else {
        let t = m.transitions[ti];
        if exists|i: int| 0 <= i < m.tapes.len() && t.moves[i] == Move::Left && m.tapes[i].cursor
            == 0 {
            Err(RuntimeError::TapeUnderflow)
        } else {
            Ok(MachineModel {
                current_state: t.output_state,
                tapes: Seq::new(
                    m.tapes.len(),
                    |i: int| apply_to_tape(m.tapes[i], t.output_symbols[i], t.moves[i]),
                ),
                ..m
            })
        }
    }
}

/// One step keeps every tape well formed when no `Left` move starts at
/// cursor `0`.
pub proof fn lemma_apply_to_tape_wf(t: TapeModel, w: Seq<char>, mv: Move)
    requires
        t.wf(),
        mv == Move::Left ==> t.cursor > 0,
    ensures
        apply_to_tape(t, w, mv).wf(),
{
}

/// A `Right` move at the tape's last cell extends the tape by exactly
/// one blank cell and leaves the cursor at the new last index.
pub proof fn lemma_right_move_extends(t: TapeModel, w: Seq<char>)
    requires
        t.wf(),
        t.cursor == t.content.len() - 1,
    ensures
        apply_to_tape(t, w, Move::Right).content.len() == t.content.len() + 1,
        apply_to_tape(t, w, Move::Right).content.last() == blank_symbol(),
        apply_to_tape(t, w, Move::Right).cursor == apply_to_tape(
            t,
            w,
            Move::Right,
        ).content.len() - 1,
{
}

/// On a successful step, a tape whose rule moved right from its last
/// cell has grown by exactly one blank cell, with the cursor on the new
/// last index.
pub proof fn lemma_step_right_extends(m: MachineModel, i: int)
    requires
        m.wf(),
        step_spec(m) is Ok,
        0 <= i < m.tapes.len(),
        m.transitions[trans_index(m.transitions, m.current_state, read_symbols_spec(m))].moves[i]
            == Move::Right,
        m.tapes[i].cursor == m.tapes[i].content.len() - 1,
    ensures
        step_spec(m)->Ok_0.tapes[i].content.len() == m.tapes[i].content.len() + 1,
        step_spec(m)->Ok_0.tapes[i].content.last() == blank_symbol(),
        step_spec(m)->Ok_0.tapes[i].cursor == m.tapes[i].content.len(),
{
    let ti = trans_index(m.transitions, m.current_state, read_symbols_spec(m));
    lemma_right_move_extends(m.tapes[i], m.transitions[ti].output_symbols[i]);
}

/// A step whose matched rule moves some head left while that tape's
/// cursor is at `0` fails with `TapeUnderflow` — and leaves the machine
/// untouched, because `step` returns its error without applying
/// anything.
pub proof fn lemma_left_at_zero_underflows(m: MachineModel, i: int)
    requires
        trans_index(m.transitions, m.current_state, read_symbols_spec(m)) >= 0,
        0 <= i < m.tapes.len(),
        m.transitions[trans_index(m.transitions, m.current_state, read_symbols_spec(m))].moves[i]
            == Move::Left,
        m.tapes[i].cursor == 0,
    ensures
        step_spec(m) == Err::<MachineModel, RuntimeError>(RuntimeError::TapeUnderflow),
{
}

/// The head never clamps: on a successful step every tape whose rule
/// moved left started with its cursor above `0` and ends exactly one
/// cell to the left.
pub proof fn lemma_left_never_clamps(m: MachineModel, i: int)
    requires
        step_spec(m) is Ok,
        0 <= i < m.tapes.len(),
        m.transitions[trans_index(m.transitions, m.current_state, read_symbols_spec(m))].moves[i]
            == Move::Left,
    ensures
        m.tapes[i].cursor > 0,
        step_spec(m)->Ok_0.tapes[i].cursor == m.tapes[i].cursor - 1,
{
}

/// Whether the machine has halted: the state registered under the
/// current state name carries the final flag. It reads nothing else —
/// in particular no tape.
pub open spec fn done_spec(m: MachineModel) -> bool {
    let i = state_index(m.states, m.current_state);
    i >= 0 && m.states[i].is_final
}

/// `done` depends only on the state registry and the current state,
/// never on tape contents or cursors.
pub proof fn lemma_done_ignores_tapes(m1: MachineModel, m2: MachineModel)
    requires
        m1.states == m2.states,
        m1.current_state == m2.current_state,
    ensures
        done_spec(m1) == done_spec(m2),
{
}

/// The machine after `reset`: each tape with a seed is reseeded, tapes
/// beyond the seed list keep their prior content; nothing else changes.
pub open spec fn seed_tape(t: TapeModel, s: Seq<char>) -> TapeModel {
    TapeModel { name: t.name, content: seeded_content(s), cursor: 0nat }
}

pub open spec fn reset_spec(m: MachineModel, seeds: Seq<Seq<char>>) -> MachineModel {
    MachineModel {
        tapes: Seq::new(
            m.tapes.len(),
            |i: int|
                if i < seeds.len() {
                    seed_tape(m.tapes[i], seeds[i])
                } else {
                    m.tapes[i]
                },
        ),
        ..m
    }
}

impl TuringMachine {
    /// Assembles a machine; the current state starts at the initial
    /// state.
    pub fn new(
        initial_state: String,
        states: Vec<State>,
        tapes: Vec<Tape>,
        transitions: Vec<Transition>,
    ) -> (r: TuringMachine)
        ensures
            r@ == (MachineModel {
                initial_state: initial_state@,
                states: states_model(states@),
                tapes: tapes_model(tapes@),
                transitions: trans_model(transitions@),
                current_state: initial_state@,
            }),
    {
        let current_state = initial_state.clone();
        TuringMachine { initial_state, states, tapes, transitions, current_state }
    }

    /// Reseeds the tapes: seed string `n` reinitializes tape `n`; tapes
    /// beyond the seed list keep their prior content. States and
    /// transitions are never touched.
    #[verifier::loop_isolation(false)]
    pub fn reset(&mut self, seeds: &mut Vec<String>)
        requires
            old(self)@.wf(),
            old(seeds)@.len() <= old(self)@.tapes.len(),
        ensures
            final(seeds)@ == old(seeds)@,
            final(self)@ == reset_spec(old(self)@, old(seeds).deep_view()),
            final(self)@.wf(),
    {
        let n = seeds.len();
        let mut i: usize = 0;
        while i < n
            invariant
                n == seeds@.len(),
                seeds@ == old(seeds)@,
                i <= n,
                n <= self.tapes@.len(),
                self.tapes@.len() == old(self).tapes@.len(),
                self@.initial_state == old(self)@.initial_state,
                self@.states == old(self)@.states,
                self@.transitions == old(self)@.transitions,
                self@.current_state == old(self)@.current_state,
                forall|k: int|
                    0 <= k < i ==> self@.tapes[k] == seed_tape(old(self)@.tapes[k], seeds@[k]@),
                forall|k: int| i <= k < self.tapes@.len() ==> self@.tapes[k] == old(self)@.tapes[k],
            decreases n - i,
        {
            let ghost snap = self@;
            self.tapes[i].reset(seeds[i].as_str());
            proof {
                assert(forall|k: int|
                    0 <= k < self.tapes@.len() && k != i ==> self@.tapes[k] == snap.tapes[k]);
                assert(self@.tapes[i as int] == seed_tape(
                    old(self)@.tapes[i as int],
                    seeds@[i as int]@,
                ));
                assert forall|k: int| 0 <= k < i + 1 implies self@.tapes[k] == seed_tape(
                    old(self)@.tapes[k],
                    seeds@[k]@,
                ) by {
                    if k < i {
                        assert(self@.tapes[k] == snap.tapes[k]);
                        assert(snap.tapes[k] == seed_tape(old(self)@.tapes[k], seeds@[k]@));
                    }
                }
            }
            i += 1;
        }
        proof {
            lemma_deep_view_elems(*old(seeds));
            assert(self@ =~= reset_spec(old(self)@, old(seeds).deep_view()));
            lemma_state_index(self@.states, self@.current_state);
            assert forall|k: int| 0 <= k < self@.tapes.len() implies self@.tapes[k].wf() by {
                if k < n {
                    assert(self@.tapes[k] == seed_tape(
                        old(self)@.tapes[k],
                        old(seeds).deep_view()[k],
                    ));
                }
            }
        }
    }

    /// The index of the transition keyed by the current state and the
    /// given read symbols, when one exists.
    fn find_transition(&self, values: &Vec<String>) -> (r: Option<usize>)
        ensures
            match r {
                Some(j) => 0 <= j < self@.transitions.len() && trans_index(
                    self@.transitions,
                    self@.current_state,
                    values.deep_view(),
                ) == j as int,
                None => trans_index(
                    self@.transitions,
                    self@.current_state,
                    values.deep_view(),
                ) == -1,
            },
    {
        let m = self.transitions.len();
        let mut j: usize = 0;
        while j < m
            invariant
                m == self.transitions@.len(),
                j <= m,
                forall|k: int|
                    0 <= k < j ==> !(self@.transitions[k].input_state == self@.current_state
                        && self@.transitions[k].input_symbols == values.deep_view()),
            decreases m - j,
        {
            let tr = &self.transitions[j];
            if str_eq(tr.input_state.as_str(), self.current_state.as_str()) && str_vec_eq(
                &tr.input_symbols,
                values,
            ) {
                proof {
                    lemma_trans_index_at(
                        self@.transitions,
                        self@.current_state,
                        values.deep_view(),
                        j as int,
                    );
                }
                return Some(j);
            }
            j += 1;
        }
        proof {
            lemma_trans_index(self@.transitions, self@.current_state, values.deep_view());
        }
        None
    }

    /// Performs one step: reads the symbol under each cursor, looks the
    /// key up, and on a hit switches state and applies each tape's
    /// write and move. On a miss, or on a `Left` move at cursor `0`,
    /// the machine is left untouched and the error is returned.
    #[verifier::loop_isolation(false)]
    pub fn step(&mut self) -> (r: Result<(), RuntimeError>)
        requires
            old(self)@.wf(),
        ensures
            final(self)@.wf(),
            match r {
                Ok(()) => step_spec(old(self)@) == Ok::<MachineModel, RuntimeError>(final(self)@),
                Err(e) => step_spec(old(self)@) == Err::<MachineModel, RuntimeError>(e)
                    && *final(self) == *old(self),
            },
    {
        proof {
            reveal_strlit("@");
            reveal_strlit("_");
            assert("@"@ =~= keep_symbol());
            assert("_"@ =~= blank_symbol());
        }
        let n = self.tapes.len();

        // Read the symbol under each tape's cursor, in tape order.
        let mut values: Vec<String> = Vec::new();
        let mut i: usize = 0;
        while i < n
            invariant
                old(self)@.wf(),
                self == old(self),
                n == self.tapes@.len(),
                i <= n,
                values@.len() == i,
                forall|k: int| 0 <= k < i ==> values@[k]@ == read_symbols_spec(self@)[k],
            decreases n - i,
        {
            let tape = &self.tapes[i];
            let cur = tape.cursor;
            assert(self@.tapes[i as int].wf());
            proof {
                lemma_deep_view_elems(tape.content);
            }
            values.push(tape.content[cur].clone());
            i += 1;
        }
        proof {
            lemma_deep_view_elems(values);
            assert(values.deep_view() =~= read_symbols_spec(self@));
        }

        let tj = match self.find_transition(&values) {
            Some(tj) => tj,
            None => {
                return Err(RuntimeError::MissingTransition);
            },
        };
        proof {
            lemma_trans_index(self@.transitions, self@.current_state, values.deep_view());
            assert(self@.transitions[tj as int].wf(self@.states));
            assert(self@.transitions[tj as int].moves.len() == n);
            assert(self@.transitions[tj as int].output_symbols.len() == n);
        }

        // Rule out any Left move at cursor 0 before touching anything.
        let mut i: usize = 0;
        while i < n
            invariant
                old(self)@.wf(),
                self == old(self),
                n == self.tapes@.len(),
                tj < self.transitions@.len(),
                self@.transitions[tj as int].moves.len() == n,
                trans_index(self@.transitions, self@.current_state, read_symbols_spec(self@))
                    == tj as int,
                i <= n,
                forall|k: int|
                    0 <= k < i ==> !(self@.transitions[tj as int].moves[k] == Move::Left
                        && self@.tapes[k].cursor == 0),
            decreases n - i,
        {
            let mv = self.transitions[tj].moves[i];
            proof {
                assert(mv == self@.transitions[tj as int].moves[i as int]);
            }
            if matches!(mv, Move::Left) && self.tapes[i].cursor == 0 {
                proof {
                    assert(exists|k: int|
                        0 <= k < self@.tapes.len() && self@.transitions[tj as int].moves[k]
                            == Move::Left && self@.tapes[k].cursor == 0);
                }
                return Err(RuntimeError::TapeUnderflow);
            }
            i += 1;
        }

        // Commit: switch state, then write and move on each tape.
        let ghost prev = old(self)@;
        let ghost tr = old(self)@.transitions[tj as int];
        self.current_state = self.transitions[tj].output_state.clone();
        let mut i: usize = 0;
        while i < n
            invariant
                prev.wf(),
                n == self.tapes@.len(),
                prev.tapes.len() == n,
                tj < self.transitions@.len(),
                i <= n,
                tr == prev.transitions[tj as int],
                tr.moves.len() == n,
                tr.output_symbols.len() == n,
                forall|k: int| 0 <= k < n ==> !(tr.moves[k] == Move::Left && prev.tapes[k].cursor
                    == 0),
                self@.initial_state == prev.initial_state,
                self@.states == prev.states,
                self@.transitions == prev.transitions,
                self@.current_state == tr.output_state,
                forall|k: int|
                    0 <= k < i ==> self@.tapes[k] == apply_to_tape(
                        prev.tapes[k],
                        tr.output_symbols[k],
                        tr.moves[k],
                    ),
                forall|k: int| i <= k < n ==> self@.tapes[k] == prev.tapes[k],
            decreases n - i,
        {
            proof {
                lemma_deep_view_elems(self.transitions@[tj as int].output_symbols);
                assert(self.transitions@[tj as int].output_symbols@.len() == n);
            }
            let mv = self.transitions[tj].moves[i];
            let keep = str_eq(self.transitions[tj].output_symbols[i].as_str(), "@");
            let written: Option<String> = if keep {
                None
            } else {
                Some(self.transitions[tj].output_symbols[i].clone())
            };
            proof {
                assert(mv == tr.moves[i as int]);
                assert(keep == (tr.output_symbols[i as int] == keep_symbol()));
                assert(written matches Some(w) ==> w@ == tr.output_symbols[i as int]);
                assert(self@.tapes[i as int].wf());
            }
            let ghost snap = self@;
            let ghost mid = TapeModel {
                content: write_cell(
                    prev.tapes[i as int].content,
                    prev.tapes[i as int].cursor as int,
                    tr.output_symbols[i as int],
                ),
                ..prev.tapes[i as int]
            };
            let tape = &mut self.tapes[i];
            let ghost before_write = tape.content;
            if let Some(w) = written {
                let cur = tape.cursor;
                tape.content[cur] = w;
            }
            proof {
                lemma_deep_view_elems(before_write);
                lemma_deep_view_elems(tape.content);
                assert(tape@.content =~= mid.content);
                assert(tape@ =~= mid);
            }
            let ghost before_move = tape.content;
            match mv {
                Move::Left => {
                    proof {
                        assert(prev.tapes[i as int].cursor > 0);
                    }
                    tape.cursor = tape.cursor - 1;
                },
                Move::Right => {
                    let len = tape.content.len();
                    proof {
                        assert(tape@.cursor < tape@.content.len());
                        assert(tape@.content.len() == len);
                    }
                    tape.cursor = tape.cursor + 1;
                    if tape.cursor == len {
                        tape.content.push("_".to_owned());
                    }
                },
                Move::Stay => {},
            }
            proof {
                lemma_deep_view_elems(before_move);
                lemma_deep_view_elems(tape.content);
                assert(tape@.content =~= move_tape(mid, mv).content);
                assert(tape@ =~= apply_to_tape(
                    prev.tapes[i as int],
                    tr.output_symbols[i as int],
                    tr.moves[i as int],
                ));
            }
            proof {
                assert(forall|k: int|
                    0 <= k < self.tapes@.len() && k != i ==> self@.tapes[k] == snap.tapes[k]);
                assert(self@.tapes[i as int] == apply_to_tape(
                    prev.tapes[i as int],
                    tr.output_symbols[i as int],
                    tr.moves[i as int],
                ));
                assert forall|k: int| 0 <= k < i + 1 implies self@.tapes[k] == apply_to_tape(
                    prev.tapes[k],
                    tr.output_symbols[k],
                    tr.moves[k],
                ) by {
                    if k < i {
                        assert(self@.tapes[k] == snap.tapes[k]);
                        assert(snap.tapes[k] == apply_to_tape(
                            prev.tapes[k],
                            tr.output_symbols[k],
                            tr.moves[k],
                        ));
                    }
                }
            }
            i += 1;
        }
        proof {
            assert(step_spec(prev) is Ok);
            assert(self@ =~= step_spec(prev)->Ok_0);
            assert(prev.transitions[tj as int].wf(prev.states));
            assert forall|k: int| 0 <= k < self@.tapes.len() implies self@.tapes[k].wf() by {
                lemma_apply_to_tape_wf(prev.tapes[k], tr.output_symbols[k], tr.moves[k]);
            }
            lemma_state_index(self@.states, self@.current_state);
        }
        Ok(())
    }

    /// True exactly when the state registered under the current state
    /// name carries the final flag.
    pub fn done(&self) -> (r: bool)
        requires
            self@.wf(),
        ensures
            r == done_spec(self@),
    {
        let n = self.states.len();
        let mut i: usize = 0;
        while i < n
            invariant
                self@.wf(),
                n == self.states@.len(),
                i <= n,
                forall|k: int| 0 <= k < i ==> self@.states[k].name != self@.current_state,
            decreases n - i,
        {
            if str_eq(self.states[i].name.as_str(), self.current_state.as_str()) {
                proof {
                    lemma_state_index_at(self@.states, self@.current_state, i as int);
                }
                return self.states[i].is_final;
            }
            i += 1;
        }
        proof {
            lemma_state_index(self@.states, self@.current_state);
            assert(false);
        }
        false
    }
}

} // verus!
