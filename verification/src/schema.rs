//! The declarative MDP schema and its validation rules.
//!
//! A schema declares a start state and a list of states; each state may be
//! terminal or carry actions, and each action carries the probabilistic
//! outcomes of taking it. Probabilities and rewards are fixed-point
//! micro-unit values: the probability one is the integer `1_000_000`.

use vstd::prelude::*;

use crate::compiled::CompiledMdp;
use crate::fixed::{sat_add, sat_add_i64, SCALE};
use crate::mdp_error::MdpError;

verus! {

/// One probabilistic transition of an action: the next state id, the
/// transition probability in micro-units, and the reward in micro-units.
#[derive(Debug, Clone, PartialEq, Eq)]
pub struct OutcomeSpec {
    pub next: String,
    pub prob: i64,
    pub reward: i64,
}

/// A named action and its stochastic outcomes.
#[derive(Debug, Clone, PartialEq, Eq)]
pub struct ActionSpec {
    pub id: String,
    pub outcomes: Vec<OutcomeSpec>,
}

/// A single state declaration: a unique id, an optional terminal flag
/// (false when omitted), and the actions available from it.
#[derive(Debug, Clone, PartialEq, Eq)]
pub struct StateSpec {
    pub id: String,
    pub terminal: Option<bool>,
    pub actions: Option<Vec<ActionSpec>>,
}

/// The whole MDP schema: a version marker, the start state id, and the
/// state declarations.
#[derive(Debug, Clone, PartialEq, Eq)]
pub struct MdpSpec {
    pub version: Option<u32>,
    pub start: String,
    pub states: Vec<StateSpec>,
}

/// The fixed-point tolerance used by default when checking that an
/// action's probabilities sum to one: with micro-unit probabilities, the
/// sum must be exact.
pub const PROB_TOLERANCE: i64 = 0;

/// Whether a state is terminal; omitted flags mean non-terminal.
pub open spec fn state_terminal(s: StateSpec) -> bool {
    match s.terminal {
        Some(b) => b,
        None => false,
    }
}

/// The actions a state declares; an omitted list means no actions.
pub open spec fn state_actions(s: StateSpec) -> Seq<ActionSpec> {
    match s.actions {
        Some(v) => v@,
        None => Seq::<ActionSpec>::empty(),
    }
}

/// Whether some declared state carries the given id.
pub open spec fn has_state_id(states: Seq<StateSpec>, id: Seq<char>) -> bool {
    exists|m: int| 0 <= m < states.len() && (#[trigger] states[m]).id@ == id
}

/// Index of the first state carrying the given id, or `-1`.
pub open spec fn state_id_index(states: Seq<StateSpec>, id: Seq<char>) -> int
    decreases states.len(),
{
    if states.len() == 0 {
        -1
    } else if states[0].id@ == id {
        0
    } else {
        let r = state_id_index(states.subrange(1, states.len() as int), id);
        if r < 0 {
            -1
        } else {
            1 + r
        }
    }
}

/// `state_id_index` is either `-1` with no state carrying the id, or the
/// least index of a state that does.
pub proof fn lemma_state_id_index(states: Seq<StateSpec>, id: Seq<char>)
    ensures
        -1 <= state_id_index(states, id) < states.len(),
        state_id_index(states, id) == -1 <==> !has_state_id(states, id),
        state_id_index(states, id) >= 0 ==> states[state_id_index(states, id)].id@ == id,
        state_id_index(states, id) >= 0 ==> forall|j: int|
            0 <= j < state_id_index(states, id) ==> (#[trigger] states[j]).id@ != id,
    decreases states.len(),
{
    if states.len() == 0 {
    } else if states[0].id@ == id {
    } else {
        let t = states.subrange(1, states.len() as int);
        lemma_state_id_index(t, id);
        assert(forall|j: int| 0 <= j < t.len() ==> t[j] == states[j + 1]);
        let r = state_id_index(t, id);
        if r < 0 {
            assert(forall|j: int| 1 <= j < states.len() ==> states[j] == t[j - 1]);
            if has_state_id(states, id) {
                let m = choose|m: int|
                    0 <= m < states.len() && (#[trigger] states[m]).id@ == id;
                assert(m >= 1);
                assert(t[m - 1].id@ == id);
            }
        } else {
            assert(states[1 + r] == t[r]);
            assert(forall|j: int| 1 <= j < 1 + r ==> states[j] == t[j - 1]);
        }
    }
}

/// A scan that stops at `i` matches `state_id_index`.
pub proof fn lemma_state_id_index_found(states: Seq<StateSpec>, id: Seq<char>, i: int)
    requires
        0 <= i < states.len(),
        states[i].id@ == id,
        forall|j: int| 0 <= j < i ==> (#[trigger] states[j]).id@ != id,
    ensures
        state_id_index(states, id) == i,
    decreases states.len(),
{
    if i == 0 {
    } else {
        let t = states.subrange(1, states.len() as int);
        assert(forall|j: int| 0 <= j < t.len() ==> t[j] == states[j + 1]);
        lemma_state_id_index_found(t, id, i - 1);
    }
}

/// Saturating sum of the outcome probabilities of an action.
pub open spec fn sum_probs(os: Seq<OutcomeSpec>) -> int
    decreases os.len(),
{
    if os.len() == 0 {
        0
    } else {
        sat_add(sum_probs(os.drop_last()), os.last().prob as int)
    }
}

/// An ASCII whitespace character, as the schema's blank check counts it.
pub open spec fn is_ws_char(c: char) -> bool {
    c == ' ' || c == '\t' || c == '\n' || c == '\r' || c == '\u{b}' || c == '\u{c}'
}

/// A token with no visible character.
pub open spec fn is_blank(s: Seq<char>) -> bool {
    forall|i: int| 0 <= i < s.len() ==> is_ws_char(#[trigger] s[i])
}

/// A single action is well-formed within the schema: it has at least one
/// outcome, no negative probability, every next state resolves, and the
/// probabilities sum to one within the tolerance.
pub open spec fn action_ok(states: Seq<StateSpec>, a: ActionSpec, tolerance: int) -> bool {
    &&& a.outcomes@.len() > 0
    &&& forall|k: int|
        0 <= k < a.outcomes@.len() ==> (#[trigger] a.outcomes@[k]).prob >= 0 && has_state_id(
            states,
            a.outcomes@[k].next@,
        )
    &&& -tolerance <= sum_probs(a.outcomes@) - SCALE as int <= tolerance
}

/// A single state is well-formed within the schema: terminal states have
/// no actions, action ids are unique, and each action is well-formed.
pub open spec fn state_ok(states: Seq<StateSpec>, s: StateSpec, tolerance: int) -> bool {
    let acts = state_actions(s);
    &&& (state_terminal(s) ==> acts.len() == 0)
    &&& forall|a: int, b: int| 0 <= a < b < acts.len() ==> acts[a].id@ != acts[b].id@
    &&& forall|a: int| 0 <= a < acts.len() ==> action_ok(states, #[trigger] acts[a], tolerance)
}

/// The whole schema is well-formed: a non-blank start id that resolves to
/// a declared state, unique state ids, and well-formed states.
pub open spec fn spec_ok(spec: MdpSpec, tolerance: int) -> bool {
    &&& !is_blank(spec.start@)
    &&& forall|i: int, j: int|
        0 <= i < j < spec.states@.len() ==> (#[trigger] spec.states@[i]).id@ != (
        #[trigger] spec.states@[j]).id@
    &&& has_state_id(spec.states@, spec.start@)
    &&& forall|i: int|
        0 <= i < spec.states@.len() ==> state_ok(spec.states@, #[trigger] spec.states@[i], tolerance)
}

/// The validation error variant is honest: whichever variant `validate`
/// reports, the schema really violates the rule that variant names, with
/// the payload drawn from a violating declaration. Only validation
/// variants can be reported.
pub open spec fn validation_err_honest(spec: MdpSpec, tolerance: int, e: MdpError) -> bool {
    let states = spec.states@;
    match e {
        MdpError::MissingStart => is_blank(spec.start@),
        MdpError::DuplicateStateId { id } => exists|x: int, y: int|
            0 <= x < y < states.len() && (#[trigger] states[x]).id@ == (#[trigger] states[y]).id@
                && states[y].id@ == id@,
        MdpError::UnknownStartState { start } => start@ == spec.start@ && !has_state_id(
            states,
            spec.start@,
        ),
        MdpError::TerminalStateHasActions { state } => exists|i: int|
            0 <= i < states.len() && (#[trigger] states[i]).id@ == state@ && state_terminal(
                states[i],
            ) && state_actions(states[i]).len() > 0,
        MdpError::DuplicateActionId { state, action } => exists|i: int, x: int, y: int|
            #![trigger state_actions(states[i])[x], state_actions(states[i])[y]]
            {
                &&& 0 <= i < states.len()
                &&& states[i].id@ == state@
                &&& 0 <= x < y < state_actions(states[i]).len()
                &&& state_actions(states[i])[x].id@ == state_actions(states[i])[y].id@
                &&& state_actions(states[i])[y].id@ == action@
            },
        MdpError::EmptyOutcomes { state, action } => exists|i: int, x: int|
            #![trigger state_actions(states[i])[x]]
            {
                &&& 0 <= i < states.len()
                &&& states[i].id@ == state@
                &&& 0 <= x < state_actions(states[i]).len()
                &&& state_actions(states[i])[x].id@ == action@
                &&& state_actions(states[i])[x].outcomes@.len() == 0
            },
        MdpError::InvalidProbability { state, action, outcome_index, value } => exists|
            i: int,
            x: int,
        |
            #![trigger state_actions(states[i])[x]]
            {
                &&& 0 <= i < states.len()
                &&& states[i].id@ == state@
                &&& 0 <= x < state_actions(states[i]).len()
                &&& state_actions(states[i])[x].id@ == action@
                &&& outcome_index < state_actions(states[i])[x].outcomes@.len()
                &&& state_actions(states[i])[x].outcomes@[outcome_index as int].prob == value
                &&& value < 0
            },
        MdpError::UnknownNextState { state, action, next } => exists|i: int, x: int, k: int|
            #![trigger state_actions(states[i])[x].outcomes@[k]]
            {
                &&& 0 <= i < states.len()
                &&& states[i].id@ == state@
                &&& 0 <= x < state_actions(states[i]).len()
                &&& state_actions(states[i])[x].id@ == action@
                &&& 0 <= k < state_actions(states[i])[x].outcomes@.len()
                &&& state_actions(states[i])[x].outcomes@[k].next@ == next@
                &&& !has_state_id(states, next@)
            },
        MdpError::ProbabilitySum { state, action, sum, tolerance: tol } => tol as int == tolerance
            && exists|i: int, x: int|
            #![trigger state_actions(states[i])[x]]
            {
                &&& 0 <= i < states.len()
                &&& states[i].id@ == state@
                &&& 0 <= x < state_actions(states[i]).len()
                &&& state_actions(states[i])[x].id@ == action@
                &&& sum as int == sum_probs(state_actions(states[i])[x].outcomes@)
                &&& !(-tolerance <= sum_probs(state_actions(states[i])[x].outcomes@)
                    - SCALE as int <= tolerance)
            },
        _ => false,
    }
}

/// Whether the token holds no visible character.
fn str_is_blank(s: &String) -> (r: bool)
    ensures
        r == is_blank(s@),
{
    let n = s.as_str().unicode_len();
    let mut i: usize = 0;
    while i < n
        invariant
            0 <= i <= n,
            n == s@.len(),
            forall|j: int| 0 <= j < i ==> is_ws_char(#[trigger] s@[j]),
        decreases n - i,
    {
        let c = s.as_str().get_char(i);
        if !(c == ' ' || c == '\t' || c == '\n' || c == '\r' || c == '\u{b}' || c == '\u{c}') {
            return false;
        }
        i = i + 1;
    }
    true
}

/// Find the position of a state id, scanning in declaration order.
pub fn find_state_index(states: &Vec<StateSpec>, id: &String) -> (r: Option<usize>)
    ensures
        ({
            let si = state_id_index(states@, id@);
            r == if si >= 0 {
                Some(si as usize)
            } else {
                None::<usize>
            }
        }),
{
    let n = states.len();
    let mut i: usize = 0;
    while i < n
        invariant
            0 <= i <= n,
            n == states@.len(),
            forall|j: int| 0 <= j < i ==> (#[trigger] states@[j]).id@ != id@,
        decreases n - i,
    {
        if states[i].id == *id {
            proof {
                lemma_state_id_index_found(states@, id@, i as int);
            }
            return Some(i);
        }
        i = i + 1;
    }
    proof {
        lemma_state_id_index(states@, id@);
        if has_state_id(states@, id@) {
            let m = choose|m: int|
                0 <= m < states@.len() && (#[trigger] states@[m]).id@ == id@;
            assert(states@[m].id@ == id@);
        }
    }
    None
}

impl MdpSpec {
    /// Validate the schema with the stock (exact) probability tolerance.
    pub fn validate(&self) -> (r: Result<(), MdpError>)
        ensures
            r is Ok <==> spec_ok(*self, PROB_TOLERANCE as int),
            r matches Err(e) ==> validation_err_honest(*self, PROB_TOLERANCE as int, e),
    {
        self.validate_with_tolerance(PROB_TOLERANCE)
    }

    /// Validate ids, transitions, and probability constraints: the start
    /// id must be non-blank and resolve; state ids and per-state action
    /// ids must be unique; terminal states declare no actions; every
    /// action has outcomes, non-negative probabilities, resolvable next
    /// states, and probabilities that sum to one within `tolerance`.
    pub fn validate_with_tolerance(&self, tolerance: i64) -> (r: Result<(), MdpError>)
        requires
            tolerance >= 0,
        ensures
            r is Ok <==> spec_ok(*self, tolerance as int),
            r matches Err(e) ==> validation_err_honest(*self, tolerance as int, e),
    {
        if str_is_blank(&self.start) {
            return Err(MdpError::MissingStart);
        }

        let n_states = self.states.len();

        // State ids must be unique.
        let mut i: usize = 0;
        while i < n_states
            invariant
                0 <= i <= n_states,
                n_states == self.states@.len(),
                forall|x: int, y: int|
                    0 <= x < y < i ==> (#[trigger] self.states@[x]).id@ != (
                    #[trigger] self.states@[y]).id@,
            decreases n_states - i,
        {
            let mut j: usize = 0;
            while j < i
                invariant
                    0 <= j <= i < n_states,
                    n_states == self.states@.len(),
                    forall|y: int| 0 <= y < j ==> (#[trigger] self.states@[y]).id@ != self.states@[
                    i as int].id@,
                decreases i - j,
            {
                if self.states[j].id == self.states[i].id {
                    let dup_id = self.states[i].id.clone();
                    proof {
                        assert(self.states@[j as int].id@ == self.states@[i as int].id@);
                        assert(0 <= j < i < self.states@.len() && self.states@[j as int].id@
                            == self.states@[i as int].id@ && self.states@[i as int].id@ == dup_id@);
                    }
                    return Err(MdpError::DuplicateStateId { id: dup_id });
                }
                j = j + 1;
            }
            i = i + 1;
        }

        // The start id must resolve to a declared state.
        let start_found = match find_state_index(&self.states, &self.start) {
            Some(_) => true,
            None => false,
        };
        proof {
            lemma_state_id_index(self.states@, self.start@);
        }
        if !start_found {
            return Err(MdpError::UnknownStartState { start: self.start.clone() });
        }

        // Per-state checks.
        let mut i: usize = 0;
        while i < n_states
            invariant
                0 <= i <= n_states,
                n_states == self.states@.len(),
                tolerance >= 0,
                forall|x: int|
                    0 <= x < i ==> state_ok(
                        self.states@,
                        #[trigger] self.states@[x],
                        tolerance as int,
                    ),
            decreases n_states - i,
        {
            let state = &self.states[i];
            let terminal = match state.terminal {
                Some(t) => t,
                None => false,
            };
            let empty_actions: Vec<ActionSpec> = Vec::new();
            let actions: &Vec<ActionSpec> = match &state.actions {
                Some(v) => v,
                None => &empty_actions,
            };
            proof {
                assert(actions@ == state_actions(self.states@[i as int]));
            }
            let n_actions = actions.len();

            if terminal && n_actions > 0 {
                let sid = state.id.clone();
                proof {
                    assert(!state_ok(self.states@, self.states@[i as int], tolerance as int));
                    assert(0 <= i < self.states@.len() && self.states@[i as int].id@ == sid@
                        && state_terminal(self.states@[i as int]) && state_actions(
                        self.states@[i as int],
                    ).len() > 0);
                }
                return Err(MdpError::TerminalStateHasActions { state: sid });
            }

            let mut a: usize = 0;
            while a < n_actions
                invariant
                    0 <= a <= n_actions,
                    i < n_states,
                    n_states == self.states@.len(),
                    n_actions == actions@.len(),
                    tolerance >= 0,
                    actions@ == state_actions(self.states@[i as int]),
                    forall|x: int, y: int|
                        0 <= x < y < a ==> (#[trigger] actions@[x]).id@ != (
                        #[trigger] actions@[y]).id@,
                    forall|x: int|
                        0 <= x < a ==> action_ok(
                            self.states@,
                            #[trigger] actions@[x],
                            tolerance as int,
                        ),
                decreases n_actions - a,
            {
                let action = &actions[a];

                // Action ids must be unique within the state.
                let mut b: usize = 0;
                while b < a
                    invariant
                        0 <= b <= a < n_actions,
                        n_actions == actions@.len(),
                        i < n_states,
                        n_states == self.states@.len(),
                        tolerance >= 0,
                        actions@ == state_actions(self.states@[i as int]),
                        forall|y: int| 0 <= y < b ==> (#[trigger] actions@[y]).id@ != actions@[
                        a as int].id@,
                    decreases a - b,
                {
                    if actions[b].id == actions[a].id {
                        let sid = self.states[i].id.clone();
                        let aid = actions[a].id.clone();
                        proof {
                            let sts = self.states@;
                            let acts = state_actions(sts[i as int]);
                            assert(acts[b as int].id@ == acts[a as int].id@);
                            assert(!state_ok(sts, sts[i as int], tolerance as int));
                            if spec_ok(*self, tolerance as int) {
                                assert(state_ok(sts, sts[i as int], tolerance as int));
                            }
                            assert(0 <= i < sts.len() && sts[i as int].id@ == sid@ && 0 <= b < a
                                < acts.len() && acts[b as int].id@ == acts[a as int].id@
                                && acts[a as int].id@ == aid@);
                        }
                        return Err(MdpError::DuplicateActionId { state: sid, action: aid });
                    }
                    b = b + 1;
                }

                let n_outcomes = action.outcomes.len();
                if n_outcomes == 0 {
                    let sid = self.states[i].id.clone();
                    let aid = actions[a].id.clone();
                    proof {
                        let sts = self.states@;
                        let acts = state_actions(sts[i as int]);
                        assert(!action_ok(sts, acts[a as int], tolerance as int));
                        assert(!state_ok(sts, sts[i as int], tolerance as int));
                        if spec_ok(*self, tolerance as int) {
                            assert(state_ok(sts, sts[i as int], tolerance as int));
                        }
                        assert(0 <= i < sts.len() && sts[i as int].id@ == sid@ && 0 <= a
                            < acts.len() && acts[a as int].id@ == aid@ && acts[
                        a as int].outcomes@.len() == 0);
                    }
                    return Err(MdpError::EmptyOutcomes { state: sid, action: aid });
                }

                let mut sum: i64 = 0;
                let mut k: usize = 0;
                while k < n_outcomes
                    invariant
                        0 <= k <= n_outcomes,
                        n_outcomes == action.outcomes@.len(),
                        i < n_states,
                        n_states == self.states@.len(),
                        a < actions@.len(),
                        tolerance >= 0,
                        actions@ == state_actions(self.states@[i as int]),
                        *action == actions@[a as int],
                        sum as int == sum_probs(action.outcomes@.take(k as int)),
                        forall|y: int|
                            0 <= y < k ==> (#[trigger] action.outcomes@[y]).prob >= 0
                                && has_state_id(self.states@, action.outcomes@[y].next@),
                    decreases n_outcomes - k,
                {
                    let outcome = &action.outcomes[k];
                    if outcome.prob < 0 {
                        let sid = self.states[i].id.clone();
                        let aid = actions[a].id.clone();
                        proof {
                            let sts = self.states@;
                            let acts = state_actions(sts[i as int]);
                            assert(acts[a as int].outcomes@[k as int].prob < 0);
                            assert(!action_ok(sts, acts[a as int], tolerance as int));
                            assert(!state_ok(sts, sts[i as int], tolerance as int));
                            if spec_ok(*self, tolerance as int) {
                                assert(state_ok(sts, sts[i as int], tolerance as int));
                            }
                            assert(0 <= i < sts.len() && sts[i as int].id@ == sid@ && 0 <= a
                                < acts.len() && acts[a as int].id@ == aid@ && (k as int) < acts[
                            a as int].outcomes@.len() && acts[a as int].outcomes@[k as int].prob
                                == outcome.prob);
                        }
                        return Err(
                            MdpError::InvalidProbability {
                                state: sid,
                                action: aid,
                                outcome_index: k,
                                value: outcome.prob,
                            },
                        );
                    }
                    let next_known = match find_state_index(&self.states, &outcome.next) {
                        Some(_) => true,
                        None => false,
                    };
                    proof {
                        lemma_state_id_index(self.states@, outcome.next@);
                    }
                    if !next_known {
                        let sid = self.states[i].id.clone();
                        let aid = actions[a].id.clone();
                        let nid = action.outcomes[k].next.clone();
                        proof {
                            let sts = self.states@;
                            let acts = state_actions(sts[i as int]);
                            assert(!has_state_id(sts, acts[a as int].outcomes@[k as int].next@));
                            assert(!action_ok(sts, acts[a as int], tolerance as int));
                            assert(!state_ok(sts, sts[i as int], tolerance as int));
                            if spec_ok(*self, tolerance as int) {
                                assert(state_ok(sts, sts[i as int], tolerance as int));
                            }
                            assert(0 <= i < sts.len() && sts[i as int].id@ == sid@ && 0 <= a
                                < acts.len() && acts[a as int].id@ == aid@ && 0 <= k < acts[
                            a as int].outcomes@.len() && acts[a as int].outcomes@[k as int].next@
                                == nid@ && !has_state_id(sts, nid@));
                        }
                        return Err(
                            MdpError::UnknownNextState { state: sid, action: aid, next: nid },
                        );
                    }
                    proof {
                        assert(action.outcomes@.take(k + 1 as int).drop_last() =~= action.outcomes@.take(
                            k as int,
                        ));
                    }
                    sum = sat_add_i64(sum, outcome.prob);
                    k = k + 1;
                }
                proof {
                    assert(action.outcomes@.take(n_outcomes as int) =~= action.outcomes@);
                }

                // Probabilities must sum to one within the tolerance.
                let deviation_high: bool = (sum as i128) - (SCALE as i128) > (tolerance as i128);
                let deviation_low: bool = (SCALE as i128) - (sum as i128) > (tolerance as i128);
                if deviation_high || deviation_low {
                    let sid = self.states[i].id.clone();
                    let aid = actions[a].id.clone();
                    proof {
                        let sts = self.states@;
                        let acts = state_actions(sts[i as int]);
                        assert(!action_ok(sts, acts[a as int], tolerance as int));
                        assert(!state_ok(sts, sts[i as int], tolerance as int));
                        if spec_ok(*self, tolerance as int) {
                            assert(state_ok(sts, sts[i as int], tolerance as int));
                        }
                        assert(0 <= i < sts.len() && sts[i as int].id@ == sid@ && 0 <= a
                            < acts.len() && acts[a as int].id@ == aid@ && sum as int == sum_probs(
                            acts[a as int].outcomes@,
                        ) && !(-(tolerance as int) <= sum_probs(acts[a as int].outcomes@)
                            - SCALE as int <= tolerance as int));
                    }
                    return Err(
                        MdpError::ProbabilitySum { state: sid, action: aid, sum, tolerance },
                    );
                }
                a = a + 1;
            }
            proof {
                assert(state_ok(self.states@, self.states@[i as int], tolerance as int));
            }
            i = i + 1;
        }
        Ok(())
    }

    /// Compile this schema into the runtime representation.
    pub fn compile(&self) -> (r: Result<CompiledMdp, MdpError>)
        ensures
            r is Ok <==> spec_ok(*self, PROB_TOLERANCE as int),
            r matches Ok(m) ==> m.matches_spec(*self),
            r matches Err(e) ==> validation_err_honest(*self, PROB_TOLERANCE as int, e),
    {
        CompiledMdp::from_spec(self)
    }
}

} // verus!
