//! Incremental construction of MDP schemas.

use vstd::prelude::*;

use crate::compiled::CompiledMdp;
use crate::mdp_error::MdpError;
use crate::schema::{
    spec_ok, state_id_index, ActionSpec, MdpSpec, OutcomeSpec, StateSpec, PROB_TOLERANCE,
};

verus! {

/// Index of the first action carrying the given id, or `-1`.
pub open spec fn action_id_index(actions: Seq<ActionSpec>, id: Seq<char>) -> int
    decreases actions.len(),
{
    if actions.len() == 0 {
        -1
    } else if actions[0].id@ == id {
        0
    } else {
        let r = action_id_index(actions.subrange(1, actions.len() as int), id);
        if r < 0 {
            -1
        } else {
            1 + r
        }
    }
}

/// A scan that stops at `i` matches `action_id_index`.
pub proof fn lemma_action_id_index_found(actions: Seq<ActionSpec>, id: Seq<char>, i: int)
    requires
        0 <= i < actions.len(),
        actions[i].id@ == id,
        forall|j: int| 0 <= j < i ==> (#[trigger] actions[j]).id@ != id,
    ensures
        action_id_index(actions, id) == i,
    decreases actions.len(),
{
    if i == 0 {
    } else {
        let t = actions.subrange(1, actions.len() as int);
        assert(forall|j: int| 0 <= j < t.len() ==> t[j] == actions[j + 1]);
        lemma_action_id_index_found(t, id, i - 1);
    }
}

/// A scan that finds nothing matches `action_id_index`.
pub proof fn lemma_action_id_index_absent(actions: Seq<ActionSpec>, id: Seq<char>)
    requires
        forall|j: int| 0 <= j < actions.len() ==> (#[trigger] actions[j]).id@ != id,
    ensures
        action_id_index(actions, id) == -1,
    decreases actions.len(),
{
    if actions.len() > 0 {
        let t = actions.subrange(1, actions.len() as int);
        assert(forall|j: int| 0 <= j < t.len() ==> t[j] == actions[j + 1]);
        lemma_action_id_index_absent(t, id);
    }
}

/// Find the position of an action id within a state's action list.
pub fn find_action_index(actions: &Vec<ActionSpec>, id: &String) -> (r: Option<usize>)
    ensures
        ({
            let ai = action_id_index(actions@, id@);
            r == if ai >= 0 {
                Some(ai as usize)
            } else {
                None::<usize>
            }
        }),
        r matches Some(j) ==> j < actions@.len() && actions@[j as int].id@ == id@ && j as int
            == action_id_index(actions@, id@),
{
    let n = actions.len();
    let mut j: usize = 0;
    while j < n
        invariant
            0 <= j <= n,
            n == actions@.len(),
            forall|y: int| 0 <= y < j ==> (#[trigger] actions@[y]).id@ != id@,
        decreases n - j,
    {
        if actions[j].id == *id {
            proof {
                lemma_action_id_index_found(actions@, id@, j as int);
            }
            return Some(j);
        }
        j = j + 1;
    }
    proof {
        lemma_action_id_index_absent(actions@, id@);
    }
    None
}

/// A schema under construction: a start id once one is set, and the state
/// declarations so far.
#[derive(Debug, Clone)]
pub struct MdpBuilder {
    start: Option<String>,
    states: Vec<StateSpec>,
}

impl MdpBuilder {
    /// The start id set so far, for specification purposes.
    pub closed spec fn start_view(self) -> Option<Seq<char>> {
        match self.start {
            Some(s) => Some(s@),
            None => None,
        }
    }

    /// The states declared so far, for specification purposes.
    pub closed spec fn states_view(self) -> Seq<StateSpec> {
        self.states@
    }

    /// A fresh builder with no start and no states.
    pub fn new() -> (r: MdpBuilder)
        ensures
            r.start_view() is None,
            r.states_view() == Seq::<StateSpec>::empty(),
    {
        MdpBuilder { start: None, states: Vec::new() }
    }

    /// Set the start state id.
    pub fn set_start(&mut self, state: String)
        ensures
            final(self).start_view() == Some(state@),
            final(self).states_view() == old(self).states_view(),
    {
        self.start = Some(state);
    }

    /// Declare a new state with the given id and terminal flag, with no
    /// actions yet.
    pub fn add_state(&mut self, id: String, terminal: bool)
        ensures
            final(self).start_view() == old(self).start_view(),
            final(self).states_view() == old(self).states_view().push(
                final(self).states_view().last(),
            ),
            ({
                let s = final(self).states_view().last();
                &&& s.id == id
                &&& s.terminal == Some(terminal)
                &&& crate::schema::state_actions(s) == Seq::<ActionSpec>::empty()
            }),
    {
        let actions: Vec<ActionSpec> = Vec::new();
        proof {
            assert(actions@ == Seq::<ActionSpec>::empty());
        }
        self.states.push(StateSpec { id, terminal: Some(terminal), actions: Some(actions) });
    }

    /// Add an action with the given id and no outcomes yet to the first
    /// state carrying the given id; fails when no state does.
    pub fn add_action(&mut self, state_id: &String, action_id: String) -> (r: Result<(), MdpError>)
        ensures
            final(self).start_view() == old(self).start_view(),
            ({
                let si = state_id_index(old(self).states_view(), state_id@);
                if si >= 0 {
                    &&& r is Ok
                    &&& final(self).states_view() == old(self).states_view().update(
                        si,
                        final(self).states_view()[si],
                    )
                    &&& final(self).states_view()[si].id == old(self).states_view()[si].id
                    &&& final(self).states_view()[si].terminal == old(self).states_view()[si].terminal
                    &&& crate::schema::state_actions(final(self).states_view()[si])
                        == crate::schema::state_actions(old(self).states_view()[si]).push(
                        crate::schema::state_actions(final(self).states_view()[si]).last(),
                    )
                    &&& crate::schema::state_actions(final(self).states_view()[si]).last().id
                        == action_id
                    &&& crate::schema::state_actions(
                        final(self).states_view()[si],
                    ).last().outcomes@ == Seq::<OutcomeSpec>::empty()
                } else {
                    r matches Err(e) && e is BuilderUnknownState && final(self).states_view() == old(
                        self,
                    ).states_view()
                }
            }),
    {
        let si = match crate::schema::find_state_index(&self.states, state_id) {
            Some(i) => i,
            None => {
                return Err(MdpError::BuilderUnknownState { state: state_id.clone() });
            },
        };
        proof {
            crate::schema::lemma_state_id_index(self.states@, state_id@);
            assert(self.states@.len() == self.states.len());
            assert(si as int == state_id_index(old(self).states_view(), state_id@));
        }
        let state = &mut self.states[si];
        let action = ActionSpec { id: action_id, outcomes: Vec::new() };
        match &mut state.actions {
            Some(actions) => {
                actions.push(action);
            },
            None => {
                let mut fresh: Vec<ActionSpec> = Vec::new();
                fresh.push(action);
                state.actions = Some(fresh);
            },
        }
        proof {
            let siw = si as int;
            let pre = old(self).states_view();
            let cur = self.states@;
            assert(cur =~= pre.update(siw, cur[siw]));
            assert(crate::schema::state_actions(cur[siw]) =~= crate::schema::state_actions(
                pre[siw],
            ).push(crate::schema::state_actions(cur[siw]).last()));
            assert(crate::schema::state_actions(cur[siw]).last().outcomes@
                =~= Seq::<OutcomeSpec>::empty());
        }
        Ok(())
    }

    /// Add an outcome with the given fields to the first action carrying
    /// the given id within the first state carrying its id; fails when
    /// either is unknown. The probability and reward are micro-unit
    /// values.
    pub fn add_outcome(
        &mut self,
        state_id: &String,
        action_id: &String,
        next: String,
        prob: i64,
        reward: i64,
    ) -> (r: Result<(), MdpError>)
        ensures
            final(self).start_view() == old(self).start_view(),
            r is Err ==> final(self).states_view() == old(self).states_view(),
            ({
                let si = state_id_index(old(self).states_view(), state_id@);
                if si < 0 {
                    r matches Err(e) && e is BuilderUnknownState
                } else {
                    let acts = crate::schema::state_actions(old(self).states_view()[si]);
                    let ai = action_id_index(acts, action_id@);
                    if ai < 0 {
                        r matches Err(e) && e is BuilderUnknownAction
                    } else {
                        &&& r is Ok
                        &&& final(self).states_view() == old(self).states_view().update(
                            si,
                            final(self).states_view()[si],
                        )
                        &&& final(self).states_view()[si].id == old(self).states_view()[si].id
                        &&& final(self).states_view()[si].terminal == old(
                            self,
                        ).states_view()[si].terminal
                        &&& crate::schema::state_actions(final(self).states_view()[si])
                            == acts.update(
                            ai,
                            crate::schema::state_actions(final(self).states_view()[si])[ai],
                        )
                        &&& crate::schema::state_actions(final(self).states_view()[si])[ai].id
                            == acts[ai].id
                        &&& crate::schema::state_actions(
                            final(self).states_view()[si],
                        )[ai].outcomes@ == acts[ai].outcomes@.push(
                            (OutcomeSpec { next, prob, reward }),
                        )
                    }
                }
            }),
    {
        let si = match crate::schema::find_state_index(&self.states, state_id) {
            Some(i) => i,
            None => {
                return Err(MdpError::BuilderUnknownState { state: state_id.clone() });
            },
        };
        proof {
            crate::schema::lemma_state_id_index(self.states@, state_id@);
            assert(self.states@.len() == self.states.len());
            assert(si as int == state_id_index(old(self).states_view(), state_id@));
        }
        let ai = {
            let state = &self.states[si];
            match &state.actions {
                Some(actions) => {
                    proof {
                        assert(actions@ == crate::schema::state_actions(
                            self.states@[si as int],
                        ));
                    }
                    find_action_index(actions, action_id)
                },
                None => {
                    proof {
                        assert(crate::schema::state_actions(self.states@[si as int])
                            =~= Seq::<ActionSpec>::empty());
                        assert(action_id_index(
                            crate::schema::state_actions(self.states@[si as int]),
                            action_id@,
                        ) == -1);
                    }
                    None
                },
            }
        };
        let ai = match ai {
            Some(j) => j,
            None => {
                return Err(
                    MdpError::BuilderUnknownAction {
                        state: state_id.clone(),
                        action: action_id.clone(),
                    },
                );
            },
        };
        let state = &mut self.states[si];
        match &mut state.actions {
            Some(actions) => {
                let action = &mut actions[ai];
                action.outcomes.push(OutcomeSpec { next, prob, reward });
                proof {
                    let siw = si as int;
                    let aiw = ai as int;
                    let pre = old(self).states_view();
                    let cur = self.states@;
                    assert(cur =~= pre.update(siw, cur[siw]));
                    assert(crate::schema::state_actions(cur[siw])
                        =~= crate::schema::state_actions(pre[siw]).update(
                        aiw,
                        crate::schema::state_actions(cur[siw])[aiw],
                    ));
                }
                Ok(())
            },
            None => {
                proof {
                    assert(false);
                }
                Err(
                    MdpError::BuilderUnknownAction {
                        state: state_id.clone(),
                        action: action_id.clone(),
                    },
                )
            },
        }
    }

    /// Assemble and validate the declared schema.
    pub fn build_spec(self) -> (r: Result<MdpSpec, MdpError>)
        ensures
            self.start_view() is None ==> r == Err::<MdpSpec, MdpError>(MdpError::MissingStart),
            r matches Ok(spec) ==> {
                &&& spec_ok(spec, PROB_TOLERANCE as int)
                &&& Some(spec.start@) == self.start_view()
                &&& spec.states@ == self.states_view()
                &&& spec.version == Some(1u32)
            },
    {
        let start = match self.start {
            Some(s) => s,
            None => { return Err(MdpError::MissingStart); },
        };
        let spec = MdpSpec { version: Some(1), start, states: self.states };
        match spec.validate() {
            Ok(()) => Ok(spec),
            Err(e) => Err(e),
        }
    }

    /// Assemble, validate, and compile the declared schema.
    pub fn compile(self) -> (r: Result<CompiledMdp, MdpError>)
        ensures
            self.start_view() is None ==> r == Err::<CompiledMdp, MdpError>(MdpError::MissingStart),
    {
        let spec = match self.build_spec() {
            Ok(s) => s,
            Err(e) => { return Err(e); },
        };
        spec.compile()
    }
}

} // verus!
