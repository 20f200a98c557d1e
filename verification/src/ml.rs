//! Integer plans of the neural American engines: how a training set is cut
//! into minibatches, and which seeds each per-date stopping network uses.

use vstd::prelude::*;
use crate::error::OxisError;
use crate::rng::{path_seed, spec_path_seed, spec_splitmix64, splitmix64};

verus! {

/// The network shape checks of the Deep Optimal Stopping engine: at least one
/// hidden layer and at least one training epoch.
pub fn check_network(hidden: &[usize], epochs: usize) -> (r: Result<(), OxisError>)
    ensures
        r is Ok <==> hidden@.len() >= 1 && epochs >= 1,
        hidden@.len() == 0 ==> (r matches Err(e) && e is InvalidInput && e.message_view()
            == "hidden layers must be non-empty"@),
        hidden@.len() >= 1 && epochs == 0 ==> (r matches Err(e) && e is InvalidInput
            && e.message_view() == "epochs must be >= 1"@),
{
    if hidden.len() == 0 {
        return Err(OxisError::invalid_input("hidden layers must be non-empty"));
    }
    if epochs == 0 {
        return Err(OxisError::invalid_input("epochs must be >= 1"));
    }
    Ok(())
}

/// Minibatch size for `m` training samples: `m.min(256.max(m / 16)).max(1)`.
pub open spec fn batch_size_for(m: nat) -> nat {
    let wide: nat = if 256 >= m / 16 {
        256
    } else {
        m / 16
    };
    let capped: nat = if m <= wide {
        m
    } else {
        wide
    };
    if capped >= 1 {
        capped
    } else {
        1
    }
}

/// Number of minibatches covering `m` samples (`m.div_ceil(batch_size)`).
pub open spec fn batch_count(m: nat) -> nat {
    let b = batch_size_for(m);
    ((m + b - 1) as nat) / b
}

/// The minibatch schedule for training on `m` samples for `epochs` epochs:
/// `(batch size, batches per epoch, total optimiser steps)`, the last at least 1.
pub fn minibatch_plan(m: usize, epochs: usize) -> (r: (usize, usize, usize))
    requires
        epochs * batch_count(m as nat) <= usize::MAX,
    ensures
        r.0 == batch_size_for(m as nat),
        r.1 == batch_count(m as nat),
        r.2 == (if epochs * r.1 >= 1 {
            epochs * r.1
        } else {
            1
        }),
{
    let wide: usize = if 256 >= m / 16 {
        256
    } else {
        m / 16
    };
    let capped: usize = if m <= wide {
        m
    } else {
        wide
    };
    let batch_size: usize = if capped >= 1 {
        capped
    } else {
        1
    };
    let q: usize = m / batch_size;
    proof {
        vstd::arithmetic::div_mod::lemma_fundamental_div_mod(m as int, batch_size as int);
        if m % batch_size != 0 {
            assert(q < usize::MAX) by (nonlinear_arith)
                requires
                    batch_size >= 2,
                    m as int == batch_size * (q as int) + m as int % batch_size as int,
                    0 <= m as int % batch_size as int,
                    m <= usize::MAX,
            ;
        }
    }
    let batches: usize = if m % batch_size == 0 {
        q
    } else {
        q + 1
    };
    proof {
        let b = batch_size as int;
        assert(b >= 1);
        vstd::arithmetic::div_mod::lemma_fundamental_div_mod(m as int, b);
        vstd::arithmetic::div_mod::lemma_fundamental_div_mod(m + b - 1, b);
        vstd::arithmetic::div_mod::lemma_div_pos_is_pos(m as int, b);
        assert(batches == (m + b - 1) / b) by (nonlinear_arith)
            requires
                b >= 1,
                m as int == b * (m as int / b) + m as int % b,
                0 <= m as int % b < b,
                m + b - 1 == b * ((m + b - 1) / b) + (m + b - 1) % b,
                0 <= (m + b - 1) % b < b,
                batches == m as int / b + (if m as int % b == 0 {
                    0int
                } else {
                    1int
                }),
        ;
    }
    let steps = epochs * batches;
    let total: usize = if steps >= 1 {
        steps
    } else {
        1
    };
    (batch_size, batches, total)
}

/// [`minibatch_plan`] where the total step count fits in a `usize`, and
/// `None` where `epochs * batches` would overflow.
pub fn minibatch_plan_checked(m: usize, epochs: usize) -> (r: Option<(usize, usize, usize)>)
    ensures
        r is Some <==> epochs * batch_count(m as nat) <= usize::MAX,
        r matches Some(p) ==> p.0 == batch_size_for(m as nat) && p.1 == batch_count(m as nat)
            && p.2 == (if epochs * p.1 >= 1 {
            epochs * p.1
        } else {
            1
        }),
{
    let (_size, batches, _total) = minibatch_plan(m, 0);
    match epochs.checked_mul(batches) {
        Some(_) => Some(minibatch_plan(m, epochs)),
        None => None,
    }
}

/// The seeds of the stopping network for exercise date `date`: its weight
/// initialisation seed and its minibatch-shuffle seed, both derived from the
/// run seed so each date's network is reproducible and independent.
pub fn stopping_net_seeds(seed: u64, date: usize) -> (r: (u64, u64))
    requires
        date < usize::MAX,
    ensures
        r.0 == spec_path_seed(seed, (usize::MAX - 1 - date) as usize),
        r.1 == spec_path_seed(seed, (0xD05usize ^ date) as usize),
{
    (path_seed(seed, usize::MAX - 1 - date), path_seed(seed, 0xD05usize ^ date))
}

/// The seed of the fresh, independent path set the learned policy is
/// evaluated on.
pub fn evaluation_seed(seed: u64) -> (r: u64)
    ensures
        r == spec_splitmix64(seed),
{
    splitmix64(seed)
}

} // verus!
