//! Birth-death processes: the shape of the state space.
//!
//! A process is given by birth rates λ_0..λ_{B-1} and death rates μ_0..μ_{D-1};
//! what is decided here depends on the two lengths only.

use vstd::prelude::*;

verus! {

/// The rate vectors fit together: there are as many death rates as birth
/// rates, or exactly one more.
pub open spec fn lengths_compatible(births_len: nat, deaths_len: nat) -> bool {
    births_len + 1 == deaths_len || births_len == deaths_len
}

/// The number of states 0..=N of a process with these rate vectors: one more
/// than the number of birth rates, or the number of death rates if larger.
pub open spec fn num_states_of(births_len: nat, deaths_len: nat) -> nat {
    if deaths_len >= births_len + 1 {
        deaths_len
    } else {
        births_len + 1
    }
}

/// Whether rate vectors of these lengths make a birth-death process.
pub fn rate_lengths_compatible(births_len: usize, deaths_len: usize) -> (ok: bool)
    ensures
        ok == lengths_compatible(births_len as nat, deaths_len as nat),
        ok <==> (deaths_len == births_len || deaths_len == births_len + 1),
{
    births_len == deaths_len || (births_len < deaths_len && deaths_len - births_len == 1)
}

/// The number of states of a process with rate vectors of these lengths.
pub fn state_count(births_len: usize, deaths_len: usize) -> (n: usize)
    requires
        births_len < usize::MAX,
    ensures
        n == num_states_of(births_len as nat, deaths_len as nat),
        n >= deaths_len,
        n >= births_len + 1,
        n == deaths_len || n == births_len + 1,
{
    let with_births = births_len + 1;
    if deaths_len >= with_births {
        deaths_len
    } else {
        with_births
    }
}

/// The number of busy servers in state `state` of a `servers`-server queue:
/// every customer is in service until all servers are taken.
pub fn busy_servers(state: usize, servers: usize) -> (busy: usize)
    ensures
        busy == if state <= servers { state } else { servers },
{
    if state <= servers {
        state
    } else {
        servers
    }
}

/// For compatible rate vectors, the state count is one more than the number
/// of birth rates: every birth rate leads out of a state into the next one.
pub proof fn lemma_compatible_states(births_len: nat, deaths_len: nat)
    requires
        lengths_compatible(births_len, deaths_len),
    ensures
        num_states_of(births_len, deaths_len) == births_len + 1,
        deaths_len <= num_states_of(births_len, deaths_len),
{
}

/// Exactly the rate vectors with as many death rates as birth rates, or one
/// more, make a process: for every number `b` of birth rates, `b` and `b + 1`
/// death rates are accepted and every other count is refused.
pub proof fn lemma_lengths_compatible_exactly(births_len: nat, deaths_len: nat)
    ensures
        lengths_compatible(births_len, deaths_len) <==> (deaths_len == births_len || deaths_len
            == births_len + 1),
        lengths_compatible(births_len, births_len),
        lengths_compatible(births_len, births_len + 1),
{
}

/// The state count is the least number of states that covers every birth
/// rate (states 0..=b) and every death rate (states 0..d-1).
pub proof fn lemma_state_count_is_least_cover(births_len: nat, deaths_len: nat, m: nat)
    ensures
        num_states_of(births_len, deaths_len) >= births_len + 1,
        num_states_of(births_len, deaths_len) >= deaths_len,
        m >= births_len + 1 && m >= deaths_len ==> m >= num_states_of(births_len, deaths_len),
{
}

} // verus!
