//! The runtime form of an MDP: resolved state indices and precomputed
//! cumulative distributions.

use vstd::prelude::*;

use crate::mdp_error::MdpError;
use crate::schema::{
    has_state_id, lemma_state_id_index, spec_ok, state_actions, state_id_index, state_terminal,
    sum_probs, ActionSpec, MdpSpec, StateSpec, PROB_TOLERANCE,
};

verus! {

/// Dense index of a state in a compiled MDP.
#[derive(Debug, Clone, Copy, PartialEq, Eq, Hash, Structural)]
pub struct StateKey(pub usize);

impl StateKey {
    /// Read the underlying state index.
    pub fn index(self) -> (r: usize)
        ensures
            r == self.0,
    {
        self.0
    }
}

impl From<usize> for StateKey {
    /// Explicit conversion from a raw state index.
    fn from(value: usize) -> (r: StateKey)
        ensures
            r.0 == value,
    {
        StateKey(value)
    }
}

impl vstd::std_specs::convert::FromSpecImpl<usize> for StateKey {
    open spec fn obeys_from_spec() -> bool {
        true
    }

    open spec fn from_spec(v: usize) -> StateKey {
        StateKey(v)
    }
}

/// One resolved transition: the next state's index and the reward in
/// micro-units.
#[derive(Debug, Clone, Copy, PartialEq, Eq, Structural)]
pub struct OutcomeRec {
    pub next: StateKey,
    pub reward: i64,
}

/// One resolved action: its outcomes and the cumulative micro-unit
/// probability at each outcome position.
#[derive(Debug, Clone, PartialEq, Eq)]
pub struct ActionRec {
    pub outcomes: Vec<OutcomeRec>,
    pub cdf: Vec<i64>,
}

/// One resolved state: its terminal flag and its actions.
#[derive(Debug, Clone, PartialEq, Eq)]
pub struct StateRec {
    pub terminal: bool,
    pub actions: Vec<ActionRec>,
}

/// One resolved action matches its declaration: same rewards, resolved
/// next-state indices, and a cumulative distribution of prefix sums.
pub open spec fn action_rec_matches(states: Seq<StateSpec>, rec: ActionRec, a: ActionSpec) -> bool {
    &&& rec.outcomes@.len() == a.outcomes@.len()
    &&& rec.cdf@.len() == a.outcomes@.len()
    &&& forall|k: int|
        0 <= k < a.outcomes@.len() ==> (#[trigger] rec.outcomes@[k]).reward == a.outcomes@[k].reward
            && rec.outcomes@[k].next.0 as int == state_id_index(states, a.outcomes@[k].next@)
    &&& forall|k: int|
        0 <= k < a.outcomes@.len() ==> (#[trigger] rec.cdf@[k]) as int == sum_probs(
            a.outcomes@.take(k + 1),
        )
}

/// One resolved state matches its declaration.
pub open spec fn state_rec_matches(states: Seq<StateSpec>, rec: StateRec, s: StateSpec) -> bool {
    &&& rec.terminal == state_terminal(s)
    &&& rec.actions@.len() == state_actions(s).len()
    &&& forall|j: int|
        0 <= j < state_actions(s).len() ==> action_rec_matches(
            states,
            #[trigger] rec.actions@[j],
            state_actions(s)[j],
        )
}

/// The runtime form of an MDP, compiled from a validated schema.
#[derive(Debug, Clone, PartialEq, Eq)]
pub struct CompiledMdp {
    start: StateKey,
    states: Vec<StateRec>,
    state_ids: Vec<String>,
}

/// Index of the first entry in a cumulative distribution that reaches the
/// sample, or the distribution's length if none does.
pub open spec fn first_reaching(cdf: Seq<i64>, sample: int) -> int
    decreases cdf.len(),
{
    if cdf.len() == 0 {
        0
    } else if !cdf_below(cdf[0] as int, sample) {
        0
    } else {
        1 + first_reaching(cdf.subrange(1, cdf.len() as int), sample)
    }
}

/// Whether a cumulative micro-unit probability lies strictly below a
/// 64-bit uniform sample: the probability `c / 1_000_000` is compared
/// exactly with the sample `sample / 2^64`.
pub open spec fn cdf_below(c: int, sample: int) -> bool {
    c * 0x1_0000_0000_0000_0000 < sample * 1_000_000
}

/// `first_reaching` is the least index whose entry reaches the sample.
pub proof fn lemma_first_reaching(cdf: Seq<i64>, sample: int)
    ensures
        0 <= first_reaching(cdf, sample) <= cdf.len(),
        forall|j: int| 0 <= j < first_reaching(cdf, sample) ==> cdf_below(
            (#[trigger] cdf[j]) as int,
            sample,
        ),
        first_reaching(cdf, sample) < cdf.len() ==> !cdf_below(
            cdf[first_reaching(cdf, sample)] as int,
            sample,
        ),
    decreases cdf.len(),
{
    if cdf.len() == 0 {
    } else if !cdf_below(cdf[0] as int, sample) {
    } else {
        let t = cdf.subrange(1, cdf.len() as int);
        lemma_first_reaching(t, sample);
        assert(forall|j: int| 0 <= j < t.len() ==> t[j] == cdf[j + 1]);
        let fr = first_reaching(cdf, sample);
        assert(fr == 1 + first_reaching(t, sample));
        assert forall|j: int| 0 <= j < fr implies cdf_below(
            (#[trigger] cdf[j]) as int,
            sample,
        ) by {
            if j == 0 {
            } else {
                assert(cdf[j] == t[j - 1]);
            }
        };
        if fr < cdf.len() {
            assert(cdf[fr] == t[fr - 1]);
        }
    }
}

/// A scan that stops at `i` matches `first_reaching`.
pub proof fn lemma_first_reaching_found(cdf: Seq<i64>, sample: int, i: int)
    requires
        0 <= i <= cdf.len(),
        forall|j: int| 0 <= j < i ==> cdf_below((#[trigger] cdf[j]) as int, sample),
        i < cdf.len() ==> !cdf_below(cdf[i] as int, sample),
    ensures
        first_reaching(cdf, sample) == i,
    decreases cdf.len(),
{
    if cdf.len() == 0 {
    } else if i == 0 {
    } else {
        let t = cdf.subrange(1, cdf.len() as int);
        assert(forall|j: int| 0 <= j < t.len() ==> t[j] == cdf[j + 1]);
        lemma_first_reaching_found(t, sample, i - 1);
    }
}

/// What `sample_transition` returns for a given state, action, and
/// uniform sample.
pub open spec fn sample_transition_spec(
    m: CompiledMdp,
    state_key: StateKey,
    action_id: int,
    sample: int,
) -> Option<(StateKey, i64, bool)> {
    let states = m.states_view();
    if state_key.0 >= states.len() {
        None
    } else if states[state_key.0 as int].terminal {
        Some((state_key, 0i64, true))
    } else if action_id < 0 || action_id >= states[state_key.0 as int].actions@.len() {
        None
    } else {
        let action = states[state_key.0 as int].actions@[action_id];
        if action.outcomes@.len() == 0 {
            None
        } else {
            let raw = first_reaching(action.cdf@, sample);
            let chosen = if raw >= action.outcomes@.len() {
                action.outcomes@.len() - 1
            } else {
                raw
            };
            let o = action.outcomes@[chosen];
            if o.next.0 >= states.len() {
                None
            } else {
                Some((o.next, o.reward, states[o.next.0 as int].terminal))
            }
        }
    }
}

impl CompiledMdp {
    /// The resolved states, for specification purposes.
    pub closed spec fn states_view(self) -> Seq<StateRec> {
        self.states@
    }

    /// The resolved start key, for specification purposes.
    pub closed spec fn start_spec(self) -> StateKey {
        self.start
    }

    /// The declared state ids in order, for specification purposes.
    pub closed spec fn ids_view(self) -> Seq<Seq<char>> {
        self.state_ids@.map_values(|s: String| s@)
    }

    /// Indexing safety: the start key and every resolved next-state index
    /// name a state that exists, and ids parallel the states.
    pub open spec fn wf(self) -> bool {
        &&& self.start_spec().0 < self.states_view().len()
        &&& self.ids_view().len() == self.states_view().len()
        &&& forall|i: int, j: int, k: int|
            0 <= i < self.states_view().len() && 0 <= j
                < self.states_view()[i].actions@.len() && 0 <= k
                < self.states_view()[i].actions@[j].outcomes@.len() ==> (
            #[trigger] self.states_view()[i].actions@[j].outcomes@[k]).next.0
                < self.states_view().len()
    }

    /// The compiled form agrees with the declared schema: states in
    /// declaration order, resolved indices, and prefix-sum distributions.
    pub open spec fn matches_spec(self, spec: MdpSpec) -> bool {
        &&& self.states_view().len() == spec.states@.len()
        &&& self.ids_view().len() == spec.states@.len()
        &&& forall|i: int|
            0 <= i < spec.states@.len() ==> (#[trigger] self.ids_view()[i]) == spec.states@[i].id@
        &&& self.start_spec().0 as int == state_id_index(spec.states@, spec.start@)
        &&& forall|i: int|
            0 <= i < spec.states@.len() ==> state_rec_matches(
                spec.states@,
                #[trigger] self.states_view()[i],
                spec.states@[i],
            )
        &&& self.wf()
    }

    /// Compile and validate a schema into the runtime representation.
    pub fn from_spec(spec: &MdpSpec) -> (r: Result<CompiledMdp, MdpError>)
        ensures
            r is Ok <==> spec_ok(*spec, PROB_TOLERANCE as int),
            r matches Ok(m) ==> m.matches_spec(*spec),
            r matches Err(e) ==> crate::schema::validation_err_honest(
                *spec,
                PROB_TOLERANCE as int,
                e,
            ),
    {
        match spec.validate_with_tolerance(PROB_TOLERANCE) {
            Ok(()) => {},
            Err(e) => { return Err(e); },
        }

        let n_states = spec.states.len();
        let mut state_ids: Vec<String> = Vec::new();
        let mut i: usize = 0;
        while i < n_states
            invariant
                0 <= i <= n_states,
                n_states == spec.states@.len(),
                state_ids@.len() == i,
                forall|x: int| 0 <= x < i ==> (#[trigger] state_ids@[x])@ == spec.states@[x].id@,
            decreases n_states - i,
        {
            state_ids.push(spec.states[i].id.clone());
            i = i + 1;
        }

        let start_index = match crate::schema::find_state_index(&spec.states, &spec.start) {
            Some(idx) => idx,
            None => {
                proof {
                    lemma_state_id_index(spec.states@, spec.start@);
                    assert(false);
                }
                return Err(MdpError::UnknownStartState { start: spec.start.clone() });
            },
        };

        let mut states: Vec<StateRec> = Vec::new();
        let mut i: usize = 0;
        while i < n_states
            invariant
                0 <= i <= n_states,
                n_states == spec.states@.len(),
                states@.len() == i,
                spec_ok(*spec, PROB_TOLERANCE as int),
                forall|x: int|
                    0 <= x < i ==> state_rec_matches(
                        spec.states@,
                        #[trigger] states@[x],
                        spec.states@[x],
                    ),
                forall|x: int, j: int, k: int|
                    0 <= x < i && 0 <= j < states@[x].actions@.len() && 0 <= k
                        < states@[x].actions@[j].outcomes@.len() ==> (
                    #[trigger] states@[x].actions@[j].outcomes@[k]).next.0 < n_states,
            decreases n_states - i,
        {
            let state = &spec.states[i];
            let terminal = match state.terminal {
                Some(t) => t,
                None => false,
            };
            let empty_actions: Vec<ActionSpec> = Vec::new();
            let action_specs: &Vec<ActionSpec> = match &state.actions {
                Some(v) => v,
                None => &empty_actions,
            };
            proof {
                assert(action_specs@ == state_actions(spec.states@[i as int]));
                assert(crate::schema::state_ok(
                    spec.states@,
                    spec.states@[i as int],
                    PROB_TOLERANCE as int,
                ));
            }
            let n_actions = action_specs.len();
            let mut actions: Vec<ActionRec> = Vec::new();
            let mut j: usize = 0;
            while j < n_actions
                invariant
                    0 <= j <= n_actions,
                    i < n_states,
                    n_states == spec.states@.len(),
                    n_actions == action_specs@.len(),
                    spec_ok(*spec, PROB_TOLERANCE as int),
                    action_specs@ == state_actions(spec.states@[i as int]),
                    crate::schema::state_ok(
                        spec.states@,
                        spec.states@[i as int],
                        PROB_TOLERANCE as int,
                    ),
                    actions@.len() == j,
                    forall|x: int|
                        0 <= x < j ==> action_rec_matches(
                            spec.states@,
                            #[trigger] actions@[x],
                            action_specs@[x],
                        ),
                    forall|x: int, k: int|
                        0 <= x < j && 0 <= k < actions@[x].outcomes@.len() ==> (#[trigger] actions@[
                        x].outcomes@[k]).next.0 < n_states,
                decreases n_actions - j,
            {
                let action_spec = &action_specs[j];
                proof {
                    assert(crate::schema::action_ok(
                        spec.states@,
                        state_actions(spec.states@[i as int])[j as int],
                        PROB_TOLERANCE as int,
                    ));
                }
                let n_outcomes = action_spec.outcomes.len();
                let mut outcomes: Vec<OutcomeRec> = Vec::new();
                let mut cdf: Vec<i64> = Vec::new();
                let mut cumulative: i64 = 0;
                let mut k: usize = 0;
                while k < n_outcomes
                    invariant
                        0 <= k <= n_outcomes,
                        n_states == spec.states@.len(),
                        n_outcomes == action_spec.outcomes@.len(),
                        outcomes@.len() == k,
                        cdf@.len() == k,
                        cumulative as int == sum_probs(action_spec.outcomes@.take(k as int)),
                        crate::schema::action_ok(
                            spec.states@,
                            *action_spec,
                            PROB_TOLERANCE as int,
                        ),
                        forall|x: int|
                            0 <= x < k ==> (#[trigger] outcomes@[x]).reward == action_spec.outcomes@[
                            x].reward && outcomes@[x].next.0 as int == state_id_index(
                                spec.states@,
                                action_spec.outcomes@[x].next@,
                            ) && outcomes@[x].next.0 < n_states,
                        forall|x: int|
                            0 <= x < k ==> (#[trigger] cdf@[x]) as int == sum_probs(
                                action_spec.outcomes@.take(x + 1),
                            ),
                    decreases n_outcomes - k,
                {
                    let outcome = &action_spec.outcomes[k];
                    proof {
                        assert(action_spec.outcomes@[k as int].prob >= 0 && has_state_id(
                            spec.states@,
                            action_spec.outcomes@[k as int].next@,
                        ));
                        lemma_state_id_index(spec.states@, outcome.next@);
                    }
                    let next = match crate::schema::find_state_index(
                        &spec.states,
                        &outcome.next,
                    ) {
                        Some(idx) => idx,
                        None => {
                            proof {
                                assert(false);
                            }
                            return Err(
                                MdpError::UnknownNextState {
                                    state: state.id.clone(),
                                    action: action_spec.id.clone(),
                                    next: outcome.next.clone(),
                                },
                            );
                        },
                    };
                    cumulative = crate::fixed::sat_add_i64(cumulative, outcome.prob);
                    proof {
                        assert(action_spec.outcomes@.take(k + 1 as int).drop_last()
                            =~= action_spec.outcomes@.take(k as int));
                    }
                    outcomes.push(OutcomeRec { next: StateKey(next), reward: outcome.reward });
                    cdf.push(cumulative);
                    k = k + 1;
                }
                actions.push(ActionRec { outcomes, cdf });
                j = j + 1;
            }
            states.push(StateRec { terminal, actions });
            i = i + 1;
        }

        proof {
            lemma_state_id_index(spec.states@, spec.start@);
        }
        Ok(CompiledMdp { start: StateKey(start_index), states, state_ids })
    }

    /// The start state's key.
    pub fn start(&self) -> (r: StateKey)
        ensures
            r == self.start_spec(),
    {
        self.start
    }

    /// Number of compiled states.
    pub fn state_count(&self) -> (r: usize)
        ensures
            r == self.states_view().len(),
    {
        self.states.len()
    }

    /// Whether a state is terminal, if the key names one.
    pub fn is_terminal(&self, key: StateKey) -> (r: Option<bool>)
        ensures
            key.0 < self.states_view().len() ==> r == Some(
                self.states_view()[key.0 as int].terminal,
            ),
            key.0 >= self.states_view().len() ==> r is None,
    {
        if key.0 < self.states.len() {
            Some(self.states[key.0].terminal)
        } else {
            None
        }
    }

    /// Number of actions available from a state, if the key names one.
    pub fn num_actions(&self, key: StateKey) -> (r: Option<usize>)
        ensures
            key.0 < self.states_view().len() ==> (r matches Some(n) && n as int
                == self.states_view()[key.0 as int].actions@.len()),
            key.0 >= self.states_view().len() ==> r is None,
    {
        if key.0 < self.states.len() {
            Some(self.states[key.0].actions.len())
        } else {
            None
        }
    }

    /// The declared id of a state, if the key names one.
    pub fn state_id(&self, key: StateKey) -> (r: Option<&String>)
        ensures
            key.0 < self.ids_view().len() ==> (r matches Some(s) && s@ == self.ids_view()[key.0 as int]),
            key.0 >= self.ids_view().len() ==> r is None,
    {
        if key.0 < self.state_ids.len() {
            proof {
                assert(self.ids_view()[key.0 as int] == self.state_ids@[key.0 as int]@);
            }
            Some(&self.state_ids[key.0])
        } else {
            None
        }
    }

    /// The key of a declared state id, if any state carries it.
    pub fn state_key(&self, id: &String) -> (r: Option<StateKey>)
        ensures
            ({
                let ti = crate::interner::token_index(self.ids_view(), id@);
                r == if ti >= 0 {
                    Some(StateKey(ti as usize))
                } else {
                    None::<StateKey>
                }
            }),
    {
        let n = self.state_ids.len();
        let mut i: usize = 0;
        while i < n
            invariant
                0 <= i <= n,
                n == self.ids_view().len(),
                n == self.state_ids@.len(),
                forall|j: int| 0 <= j < i ==> self.ids_view()[j] != id@,
            decreases n - i,
        {
            proof {
                assert(self.ids_view()[i as int] == self.state_ids@[i as int]@);
            }
            if self.state_ids[i] == *id {
                proof {
                    crate::interner::lemma_token_index_found(self.ids_view(), id@, i as int);
                }
                return Some(StateKey(i));
            }
            i = i + 1;
        }
        proof {
            crate::interner::lemma_token_index_absent(self.ids_view(), id@);
        }
        None
    }

    /// Resolve one transition for `(state_key, action_id)` against a
    /// 64-bit uniform sample: terminal states absorb with zero reward;
    /// otherwise the outcome is the first whose cumulative probability
    /// reaches the sample, clamped to the last outcome. A resolved next
    /// index that names no state counts as invalid input; on a compiled
    /// process satisfying `wf` that never happens.
    pub fn sample_transition(&self, state_key: StateKey, action_id: usize, sample: u64) -> (r:
        Option<(StateKey, i64, bool)>)
        ensures
            r == sample_transition_spec(*self, state_key, action_id as int, sample as int),
    {
        if state_key.0 >= self.states.len() {
            return None;
        }
        let state = &self.states[state_key.0];
        if state.terminal {
            return Some((state_key, 0i64, true));
        }
        if action_id >= state.actions.len() {
            return None;
        }
        let action = &state.actions[action_id];
        let n_outcomes = action.outcomes.len();
        if n_outcomes == 0 {
            return None;
        }
        let n_cdf = action.cdf.len();
        let mut raw: usize = 0;
        while raw < n_cdf
            invariant_except_break
                0 <= raw <= n_cdf,
                n_cdf == action.cdf@.len(),
                forall|j: int| 0 <= j < raw ==> cdf_below(
                    (#[trigger] action.cdf@[j]) as int,
                    sample as int,
                ),
            ensures
                0 <= raw <= n_cdf,
                n_cdf == action.cdf@.len(),
                forall|j: int| 0 <= j < raw ==> cdf_below(
                    (#[trigger] action.cdf@[j]) as int,
                    sample as int,
                ),
                raw < n_cdf ==> !cdf_below(action.cdf@[raw as int] as int, sample as int),
            decreases n_cdf - raw,
        {
            let c = action.cdf[raw];
            let below: bool = if c < 0 {
                proof {
                    assert((c as int) * 0x1_0000_0000_0000_0000 < 0) by (nonlinear_arith)
                        requires
                            (c as int) < 0,
                    ;
                    assert((sample as int) * 1_000_000 >= 0) by (nonlinear_arith)
                        requires
                            (sample as int) >= 0,
                    ;
                }
                true
            } else {
                proof {
                    assert((c as int) * 0x1_0000_0000_0000_0000 < 0x1_0000_0000_0000_0000_0000_0000_0000_0000)
                        by (nonlinear_arith)
                        requires
                            0 <= (c as int) < 0x8000_0000_0000_0000,
                    ;
                    assert((sample as int) * 1_000_000 < 0x1_0000_0000_0000_0000_0000_0000_0000_0000)
                        by (nonlinear_arith)
                        requires
                            0 <= (sample as int) < 0x1_0000_0000_0000_0000,
                    ;
                }
                ((c as u128) * 0x1_0000_0000_0000_0000u128) < ((sample as u128) * 1_000_000u128)
            };
            if !below {
                break ;
            }
            raw = raw + 1;
        }
        proof {
            lemma_first_reaching_found(action.cdf@, sample as int, raw as int);
        }
        let chosen: usize = if raw >= n_outcomes {
            n_outcomes - 1
        } else {
            raw
        };
        let o = &action.outcomes[chosen];
        if o.next.0 >= self.states.len() {
            return None;
        }
        let next_terminal = self.states[o.next.0].terminal;
        Some((o.next, o.reward, next_terminal))
    }
}

} // verus!
