//! Seeded simulators that drive the engine from compiled or user-defined
//! decision processes.
//!
//! Randomness enters the library only here: a seeded ChaCha generator
//! produces 64-bit uniform samples, and every function that consumes a
//! sample takes it as a plain argument and is verified for every value of
//! it.

use vstd::prelude::*;

use crate::compiled::{sample_transition_spec, CompiledMdp, StateKey};
use crate::domain::MdpDomain;
use crate::interner::StateInterner;

verus! {

#[verifier::external_type_specification]
#[verifier::external_body]
pub struct ExChaCha8Rng(rand_chacha::ChaCha8Rng);

/// Relies on `Clone` for `ChaCha8Rng`: duplicates the generator state.
pub assume_specification[ <rand_chacha::ChaCha8Rng as Clone>::clone ](
    rng: &rand_chacha::ChaCha8Rng,
) -> rand_chacha::ChaCha8Rng;

/// Relies on `rand::SeedableRng::seed_from_u64` for `ChaCha8Rng`: expands
/// a 64-bit seed into a generator state, deterministically in the seed.
#[verifier::external_body]
fn chacha_from_seed(seed: u64) -> rand_chacha::ChaCha8Rng {
    <rand_chacha::ChaCha8Rng as rand::SeedableRng>::seed_from_u64(seed)
}

/// Relies on `rand::RngCore::next_u64` for `ChaCha8Rng`: draws the next
/// 64-bit value of the stream. Nothing can be promised of a random value.
#[verifier::external_body]
fn chacha_next_u64(rng: &mut rand_chacha::ChaCha8Rng) -> u64 {
    rand::RngCore::next_u64(rng)
}

/// What `MdpSimulator::step` returns for a given uniform sample: the
/// resolved transition, or an absorbing zero-reward terminal transition
/// for invalid inputs.
pub open spec fn step_result_spec(
    m: CompiledMdp,
    state_key: StateKey,
    action_id: int,
    sample: u64,
) -> (StateKey, i64, bool) {
    match sample_transition_spec(m, state_key, action_id, sample as int) {
        Some(t) => t,
        None => (state_key, 0i64, true),
    }
}

/// A seeded simulator over a compiled MDP.
#[derive(Debug, Clone)]
pub struct MdpSimulator {
    mdp: CompiledMdp,
    rng: rand_chacha::ChaCha8Rng,
}

impl MdpSimulator {
    /// The compiled process this simulator samples from, for
    /// specification purposes.
    pub closed spec fn mdp_spec(self) -> CompiledMdp {
        self.mdp
    }

    /// Create a simulator with a deterministic generator seed.
    pub fn new(mdp: CompiledMdp, seed: u64) -> (r: MdpSimulator)
        ensures
            r.mdp_spec() == mdp,
    {
        MdpSimulator { mdp, rng: chacha_from_seed(seed) }
    }

    /// Borrow the underlying compiled MDP.
    pub fn mdp(&self) -> (r: &CompiledMdp)
        ensures
            *r == self.mdp_spec(),
    {
        &self.mdp
    }

    /// Number of actions available in a state; zero for unknown keys.
    pub fn num_actions(&self, state_key: StateKey) -> (r: usize)
        ensures
            r as int == if state_key.0 < self.mdp_spec().states_view().len() {
                self.mdp_spec().states_view()[state_key.0 as int].actions@.len()
            } else {
                0
            },
    {
        match self.mdp.num_actions(state_key) {
            Some(n) => n,
            None => 0,
        }
    }

    /// Sample one `(next_state, reward, terminal)` transition. The
    /// generator supplies the sample; for every possible sample value the
    /// result is the resolved transition, and invalid state or action
    /// inputs degrade to an absorbing zero-reward terminal transition.
    pub fn step(&mut self, state_key: StateKey, action_id: usize) -> (r: (StateKey, i64, bool))
        ensures
            final(self).mdp_spec() == old(self).mdp_spec(),
            exists|sample: u64|
                r == #[trigger] step_result_spec(
                    old(self).mdp_spec(),
                    state_key,
                    action_id as int,
                    sample,
                ),
    {
        let sample = chacha_next_u64(&mut self.rng);
        let out = match self.mdp.sample_transition(state_key, action_id, sample) {
            Some(t) => t,
            None => (state_key, 0i64, true),
        };
        proof {
            assert(out == step_result_spec(
                old(self).mdp_spec(),
                state_key,
                action_id as int,
                sample,
            ));
        }
        out
    }
}

/// A compiled-process simulator drives the search engine directly. The
/// engine's 64-bit state fingerprints carry the dense compiled state
/// indices; the stock rollout policy always plays the first action.
impl crate::domain::SearchDomain for MdpSimulator {
    fn num_actions(&mut self, state_key: crate::ids::StateKey) -> usize {
        MdpSimulator::num_actions(self, StateKey(state_key.0 as usize))
    }

    fn step(
        &mut self,
        state_key: crate::ids::StateKey,
        action_id: crate::ids::ActionId,
    ) -> (crate::ids::StateKey, i64, bool) {
        let (next, reward, terminal) = MdpSimulator::step(
            self,
            StateKey(state_key.0 as usize),
            action_id.0,
        );
        (crate::ids::StateKey(next.0 as u64), reward, terminal)
    }

    fn rollout_policy(
        &mut self,
        _state_key: crate::ids::StateKey,
        _num_actions: usize,
    ) -> crate::ids::ActionId {
        crate::ids::ActionId(0)
    }
}

/// A seeded simulator over a user-defined domain with token-encoded
/// states, interning each token to a dense key; key zero is the start.
#[derive(Debug, Clone)]
pub struct DomainSimulator<D: MdpDomain> {
    domain: D,
    state_interner: StateInterner,
    rng: rand_chacha::ChaCha8Rng,
}

impl<D: MdpDomain> DomainSimulator<D> {
    /// The interned tokens, for specification purposes.
    pub closed spec fn tokens(self) -> Seq<Seq<char>> {
        self.state_interner@
    }

    /// All interned tokens are distinct.
    pub closed spec fn wf(self) -> bool {
        self.state_interner.wf()
    }

    /// Create a domain simulator with a deterministic generator seed; the
    /// domain's start state becomes key zero.
    pub fn new(domain: D, seed: u64) -> (r: DomainSimulator<D>)
        ensures
            r.tokens().len() == 1,
            r.wf(),
    {
        let mut state_interner = StateInterner::new();
        let start = domain.start_state();
        let _ = state_interner.intern(start);
        DomainSimulator { domain, state_interner, rng: chacha_from_seed(seed) }
    }

    /// The key of the domain's start state.
    pub fn start_state_key(&self) -> (r: u64)
        ensures
            r == 0,
    {
        0
    }

    /// Borrow the underlying domain.
    pub fn domain(&self) -> &D {
        &self.domain
    }

    /// Whether the domain's start state is terminal.
    pub fn root_is_terminal(&self) -> bool {
        self.is_terminal_by_key(0)
    }

    /// Resolve a key back to its interned token.
    pub fn state_for_key(&self, key: u64) -> (r: Option<&String>)
        ensures
            key < self.tokens().len() ==> (r matches Some(s) && s@ == self.tokens()[key as int]),
            key >= self.tokens().len() ==> r is None,
    {
        self.state_interner.get(key)
    }

    /// Whether an interned key names a terminal state; unknown keys count
    /// as terminal.
    pub fn is_terminal_by_key(&self, state_key: u64) -> (r: bool)
        ensures
            state_key >= self.tokens().len() ==> r,
    {
        match self.state_interner.get(state_key) {
            Some(state) => self.domain.is_terminal(state),
            None => true,
        }
    }

    /// Number of actions available for an interned key; zero for unknown
    /// keys.
    pub fn num_actions_by_key(&self, state_key: u64) -> (r: usize)
        ensures
            state_key >= self.tokens().len() ==> r == 0,
    {
        match self.state_interner.get(state_key) {
            Some(state) => self.domain.num_actions(state),
            None => 0,
        }
    }

    /// Sample one `(next_state_key, reward, terminal)` transition, keeping
    /// the interner consistent: the token set only grows, known keys stay
    /// bound to their tokens, and the set stays duplicate-free. A known key
    /// yields a next key that is itself known; an unknown key leaves the
    /// simulator untouched and degrades to an absorbing zero-reward
    /// terminal transition.
    pub fn step_by_key(&mut self, state_key: u64, action_id: usize) -> (r: (u64, i64, bool))
        requires
            old(self).wf(),
            old(self).tokens().len() < u64::MAX,
        ensures
            final(self).wf(),
            final(self).tokens().len() >= old(self).tokens().len(),
            forall|j: int|
                0 <= j < old(self).tokens().len() ==> final(self).tokens()[j] == old(
                self).tokens()[j],
            state_key >= old(self).tokens().len() ==> r == (state_key, 0i64, true) && *final(self)
                == *old(self),
            state_key < old(self).tokens().len() ==> (r.0 as int) < final(self).tokens().len(),
    {
        let state = match self.state_interner.get(state_key) {
            Some(s) => s.clone(),
            None => { return (state_key, 0i64, true); },
        };
        let sample = chacha_next_u64(&mut self.rng);
        let (next_state, reward, terminal) = self.domain.step(&state, action_id, sample);
        let ghost pre_tokens = self.state_interner@;
        let ghost ns = next_state@;
        let next_key = self.state_interner.intern(next_state);
        proof {
            crate::interner::lemma_token_index(pre_tokens, ns);
        }
        (next_key, reward, terminal)
    }
}

} // verus!
