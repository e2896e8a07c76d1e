//! Stable interning of state tokens to dense numeric keys.
//!
//! A domain with arbitrary state values presents each state as a stable
//! string token; the interner assigns every distinct token a dense `u64`
//! key in order of first appearance, with key zero for the first token.

use vstd::prelude::*;

verus! {

/// Index of the first token equal to `k`, or `-1` if no token is.
pub open spec fn token_index(s: Seq<Seq<char>>, k: Seq<char>) -> int
    decreases s.len(),
{
    if s.len() == 0 {
        -1
    } else if s[0] == k {
        0
    } else {
        let r = token_index(s.subrange(1, s.len() as int), k);
        if r < 0 {
            -1
        } else {
            1 + r
        }
    }
}

/// `token_index` is either `-1` with no token equal, or the least index of
/// an equal token.
pub proof fn lemma_token_index(s: Seq<Seq<char>>, k: Seq<char>)
    ensures
        -1 <= token_index(s, k) < s.len(),
        token_index(s, k) == -1 ==> forall|j: int| 0 <= j < s.len() ==> s[j] != k,
        token_index(s, k) >= 0 ==> s[token_index(s, k)] == k,
        token_index(s, k) >= 0 ==> forall|j: int| 0 <= j < token_index(s, k) ==> s[j] != k,
    decreases s.len(),
{
    if s.len() == 0 {
    } else if s[0] == k {
    } else {
        let t = s.subrange(1, s.len() as int);
        lemma_token_index(t, k);
        assert(forall|j: int| 0 <= j < t.len() ==> t[j] == s[j + 1]);
        let r = token_index(t, k);
        if r < 0 {
            assert(forall|j: int| 1 <= j < s.len() ==> s[j] == t[j - 1]);
        } else {
            assert(s[1 + r] == t[r]);
            assert(forall|j: int| 1 <= j < 1 + r ==> s[j] == t[j - 1]);
        }
    }
}

/// A scan that stops at `i` matches `token_index`.
pub proof fn lemma_token_index_found(s: Seq<Seq<char>>, k: Seq<char>, i: int)
    requires
        0 <= i < s.len(),
        s[i] == k,
        forall|j: int| 0 <= j < i ==> s[j] != k,
    ensures
        token_index(s, k) == i,
    decreases s.len(),
{
    if i == 0 {
    } else {
        let t = s.subrange(1, s.len() as int);
        assert(forall|j: int| 0 <= j < t.len() ==> t[j] == s[j + 1]);
        lemma_token_index_found(t, k, i - 1);
    }
}

/// A scan that finds nothing matches `token_index`.
pub proof fn lemma_token_index_absent(s: Seq<Seq<char>>, k: Seq<char>)
    requires
        forall|j: int| 0 <= j < s.len() ==> s[j] != k,
    ensures
        token_index(s, k) == -1,
{
    lemma_token_index(s, k);
    if token_index(s, k) >= 0 {
        assert(s[token_index(s, k)] == k);
    }
}

/// A key interner for state tokens: an append-only list of distinct
/// tokens, where a token's key is its position.
#[derive(Debug, Clone)]
pub struct StateInterner {
    states: Vec<String>,
}

impl View for StateInterner {
    type V = Seq<Seq<char>>;

    closed spec fn view(&self) -> Seq<Seq<char>> {
        self.states@.map_values(|s: String| s@)
    }
}

impl StateInterner {
    /// All interned tokens are distinct.
    pub open spec fn wf(self) -> bool {
        forall|i: int, j: int| 0 <= i < j < self@.len() ==> self@[i] != self@[j]
    }

    /// A fresh interner with no tokens.
    pub fn new() -> (r: StateInterner)
        ensures
            r@ == Seq::<Seq<char>>::empty(),
            r.wf(),
    {
        StateInterner { states: Vec::new() }
    }

    /// Intern a token: return its existing key if it is known, else append
    /// it and return the fresh key.
    pub fn intern(&mut self, state: String) -> (r: u64)
        requires
            old(self)@.len() < u64::MAX,
        ensures
            ({
                let ti = token_index(old(self)@, state@);
                if ti >= 0 {
                    r as int == ti && final(self)@ == old(self)@
                } else {
                    r as int == old(self)@.len() && final(self)@ == old(self)@.push(state@)
                }
            }),
            old(self).wf() ==> final(self).wf(),
    {
        let n = self.states.len();
        let mut i: usize = 0;
        while i < n
            invariant
                0 <= i <= n,
                n == self@.len(),
                self@ == old(self)@,
                n < u64::MAX,
                forall|j: int| 0 <= j < i ==> self@[j] != state@,
            decreases n - i,
        {
            if self.states[i] == state {
                proof {
                    assert(self@[i as int] == state@);
                    lemma_token_index_found(self@, state@, i as int);
                }
                return i as u64;
            }
            proof {
                assert(self@[i as int] == self.states@[i as int]@);
            }
            i = i + 1;
        }
        proof {
            lemma_token_index_absent(self@, state@);
        }
        self.states.push(state);
        proof {
            assert(self@ =~= old(self)@.push(self.states@[n as int]@));
        }
        n as u64
    }

    /// Resolve a key back to its token.
    pub fn get(&self, key: u64) -> (r: Option<&String>)
        ensures
            key < self@.len() ==> (r matches Some(s) && s@ == self@[key as int]),
            key >= self@.len() ==> r is None,
    {
        if key < self.states.len() as u64 {
            let i = key as usize;
            proof {
                assert(self@[i as int] == self.states@[i as int]@);
            }
            Some(&self.states[i])
        } else {
            None
        }
    }

    /// The key of a known token, if it was interned.
    pub fn key_of(&self, state: &String) -> (r: Option<u64>)
        ensures
            ({
                let ti = token_index(self@, state@);
                r == if ti >= 0 {
                    Some(ti as u64)
                } else {
                    None::<u64>
                }
            }),
    {
        let n = self.states.len();
        let mut i: usize = 0;
        while i < n
            invariant
                0 <= i <= n,
                n == self@.len(),
                forall|j: int| 0 <= j < i ==> self@[j] != state@,
            decreases n - i,
        {
            if self.states[i] == *state {
                proof {
                    assert(self@[i as int] == state@);
                    lemma_token_index_found(self@, state@, i as int);
                    lemma_token_index(self@, state@);
                }
                return Some(i as u64);
            }
            proof {
                assert(self@[i as int] == self.states@[i as int]@);
            }
            i = i + 1;
        }
        proof {
            lemma_token_index_absent(self@, state@);
        }
        None
    }

    /// Number of distinct tokens interned so far.
    pub fn len(&self) -> (r: usize)
        ensures
            r == self@.len(),
    {
        self.states.len()
    }

    /// Whether no token has been interned yet.
    pub fn is_empty(&self) -> (r: bool)
        ensures
            r == (self@.len() == 0),
    {
        self.states.is_empty()
    }
}

} // verus!
