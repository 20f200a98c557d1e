//! The families of stochastic process the simulator supports, identified
//! independently of their (real-valued) parameters.

use vstd::prelude::*;
use crate::error::OxisError;
use crate::rng::{lemma_path_seed_distinct_indices, path_seed, spec_path_seed};
use crate::text::{chars_of, fold, folded_equals, lemma_fold_idempotent};

verus! {

/// Which stochastic process a simulation runs.
#[derive(Debug, Clone, Copy, PartialEq, Eq, Hash)]
pub enum ProcessKind {
    /// Geometric Brownian motion.
    Gbm,
    /// Ornstein-Uhlenbeck mean reversion.
    OrnsteinUhlenbeck,
    /// Vasicek short rate.
    Vasicek,
    /// Cox-Ingersoll-Ross short rate.
    Cir,
    /// Merton jump diffusion.
    MertonJump,
    /// Heston stochastic volatility.
    Heston,
}

/// The stable identifier of a process family.
pub open spec fn process_name(k: ProcessKind) -> Seq<char> {
    match k {
        ProcessKind::Gbm => "gbm"@,
        ProcessKind::OrnsteinUhlenbeck => "ornstein-uhlenbeck"@,
        ProcessKind::Vasicek => "vasicek"@,
        ProcessKind::Cir => "cir"@,
        ProcessKind::MertonJump => "merton-jump"@,
        ProcessKind::Heston => "heston"@,
    }
}

/// Whether a process models an asset price, whose state must stay positive.
pub open spec fn positive_state(k: ProcessKind) -> bool {
    k is Gbm || k is MertonJump || k is Heston
}

impl ProcessKind {
    /// A short, stable identifier for output / the CLI (`"gbm"`, `"heston"`, ...).
    pub fn name(self) -> (s: &'static str)
        ensures
            s@ == process_name(self),
    {
        match self {
            ProcessKind::Gbm => "gbm",
            ProcessKind::OrnsteinUhlenbeck => "ornstein-uhlenbeck",
            ProcessKind::Vasicek => "vasicek",
            ProcessKind::Cir => "cir",
            ProcessKind::MertonJump => "merton-jump",
            ProcessKind::Heston => "heston",
        }
    }

    /// Whether the simulated state must stay strictly positive (an asset
    /// price), so the simulator rejects `x0 <= 0`.
    pub fn requires_positive_state(self) -> (b: bool)
        ensures
            b == positive_state(self),
    {
        matches!(self, ProcessKind::Gbm | ProcessKind::MertonJump | ProcessKind::Heston)
    }
}


/// The process family named by `s`, ignoring ASCII case (`ou` and `merton`
/// abbreviate the long names).
pub open spec fn spec_parse_process(s: Seq<char>) -> Option<ProcessKind> {
    let f = fold(s, false);
    if f == "gbm"@ {
        Some(ProcessKind::Gbm)
    } else if f == "ou"@ || f == "ornstein-uhlenbeck"@ {
        Some(ProcessKind::OrnsteinUhlenbeck)
    } else if f == "vasicek"@ {
        Some(ProcessKind::Vasicek)
    } else if f == "cir"@ {
        Some(ProcessKind::Cir)
    } else if f == "merton"@ || f == "merton-jump"@ {
        Some(ProcessKind::MertonJump)
    } else if f == "heston"@ {
        Some(ProcessKind::Heston)
    } else {
        None
    }
}

/// Parse a process family name (`gbm`, `ou`, `vasicek`, `cir`, `merton`,
/// `heston`, or the long names), ignoring ASCII case.
pub fn parse_process(s: &str) -> (r: Option<ProcessKind>)
    ensures
        r == spec_parse_process(s@),
{
    let v = chars_of(s);
    if folded_equals(&v, "gbm", false) {
        Some(ProcessKind::Gbm)
    } else if folded_equals(&v, "ou", false) || folded_equals(&v, "ornstein-uhlenbeck", false) {
        Some(ProcessKind::OrnsteinUhlenbeck)
    } else if folded_equals(&v, "vasicek", false) {
        Some(ProcessKind::Vasicek)
    } else if folded_equals(&v, "cir", false) {
        Some(ProcessKind::Cir)
    } else if folded_equals(&v, "merton", false) || folded_equals(&v, "merton-jump", false) {
        Some(ProcessKind::MertonJump)
    } else if folded_equals(&v, "heston", false) {
        Some(ProcessKind::Heston)
    } else {
        None
    }
}

/// Every process family's stable name parses back to that family.
pub proof fn lemma_process_name_round_trip(k: ProcessKind)
    ensures
        spec_parse_process(process_name(k)) == Some(k),
{
    reveal_strlit("gbm");
    reveal_strlit("ou");
    reveal_strlit("ornstein-uhlenbeck");
    reveal_strlit("vasicek");
    reveal_strlit("cir");
    reveal_strlit("merton");
    reveal_strlit("merton-jump");
    reveal_strlit("heston");
    let n = process_name(k);
    assert(fold(n, false) =~= n);
    match k {
        ProcessKind::Gbm => {},
        ProcessKind::OrnsteinUhlenbeck => {
            assert(n.len() != "gbm"@.len());
            assert(n.len() != "ou"@.len());
        },
        ProcessKind::Vasicek => {
            assert(n.len() != "gbm"@.len());
            assert(n.len() != "ou"@.len());
            assert(n.len() != "ornstein-uhlenbeck"@.len());
        },
        ProcessKind::Cir => {
            assert(n[0] != "gbm"@[0]);
            assert(n.len() != "ou"@.len());
            assert(n.len() != "ornstein-uhlenbeck"@.len());
            assert(n.len() != "vasicek"@.len());
        },
        ProcessKind::MertonJump => {
            assert(n.len() != "gbm"@.len());
            assert(n.len() != "ou"@.len());
            assert(n.len() != "ornstein-uhlenbeck"@.len());
            assert(n.len() != "vasicek"@.len());
            assert(n.len() != "cir"@.len());
            assert(n.len() != "merton"@.len());
        },
        ProcessKind::Heston => {
            assert(n.len() != "gbm"@.len());
            assert(n.len() != "ou"@.len());
            assert(n.len() != "ornstein-uhlenbeck"@.len());
            assert(n[0] != "vasicek"@[0]);
            assert(n.len() != "cir"@.len());
            assert(n[0] != "merton"@[0]);
            assert(n.len() != "merton-jump"@.len());
        },
    }
}


/// Simulation configuration: path count, time-step count, and RNG seed.
#[derive(Debug, Clone, Copy, PartialEq, Eq)]
pub struct SimConfig {
    /// Number of simulated paths (drawn as `paths / 2` antithetic pairs, rounded
    /// up to a whole pair).
    pub paths: usize,
    /// Number of time steps on the grid `t_j = j * (t / steps)`.
    pub steps: usize,
    /// RNG seed: fixes the whole simulation for reproducibility.
    pub seed: u64,
}

impl Default for SimConfig {
    /// 100k paths, 50 steps, seed 42.
    fn default() -> (c: Self)
        ensures
            c.paths == 100_000 && c.steps == 50 && c.seed == 42,
    {
        SimConfig { paths: 100_000, steps: 50, seed: 42 }
    }
}

/// Number of antithetic pairs drawn for `paths` paths (`paths.div_ceil(2)`).
pub open spec fn pair_count(paths: nat) -> nat {
    (paths + 1) / 2
}

impl SimConfig {
    /// Reject a configuration with no paths or no time steps.
    pub fn check(&self) -> (r: Result<(), OxisError>)
        ensures
            r is Ok <==> self.paths >= 1 && self.steps >= 1,
            self.paths == 0 ==> (r matches Err(e) && e is InvalidInput && e.message_view()
                == "paths must be >= 1"@),
            self.paths >= 1 && self.steps == 0 ==> (r matches Err(e) && e is InvalidInput
                && e.message_view() == "steps must be >= 1"@),
    {
        if self.paths == 0 {
            return Err(OxisError::invalid_input("paths must be >= 1"));
        }
        if self.steps == 0 {
            return Err(OxisError::invalid_input("steps must be >= 1"));
        }
        Ok(())
    }

    /// Number of antithetic pairs the simulation draws.
    pub fn n_pairs(&self) -> (n: usize)
        ensures
            n == pair_count(self.paths as nat),
    {
        self.paths / 2 + self.paths % 2
    }

    /// The RNG seed of every antithetic pair, in pair order: pair `i` draws
    /// from `path_seed(seed, i)`, so the whole simulation is reproducible from
    /// `(seed, paths, steps)` however the pairs are scheduled.
    pub fn pair_seeds(&self) -> (r: Vec<u64>)
        ensures
            r@.len() == pair_count(self.paths as nat),
            forall|i: int| 0 <= i < r@.len() ==> #[trigger] r@[i] == spec_path_seed(self.seed, i as usize),
            forall|i: int, j: int| 0 <= i < j < r@.len() ==> #[trigger] r@[i] != #[trigger] r@[j],
    {
        let n = self.n_pairs();
        let mut seeds: Vec<u64> = Vec::new();
        let mut i: usize = 0;
        while i < n
            invariant
                i <= n,
                n == pair_count(self.paths as nat),
                seeds@.len() == i,
                forall|j: int| 0 <= j < i ==> #[trigger] seeds@[j] == spec_path_seed(self.seed, j as usize),
            decreases n - i,
        {
            seeds.push(path_seed(self.seed, i));
            i = i + 1;
        }
        proof {
            assert forall|a: int, b: int| 0 <= a < b < seeds@.len() implies #[trigger] seeds@[a]
                != #[trigger] seeds@[b] by {
                lemma_path_seed_distinct_indices(self.seed, a as usize, b as usize);
            }
        }
        seeds
    }
}

/// Process families are named `gbm`, `ornstein-uhlenbeck` (or `ou`),
/// `vasicek`, `cir`, `merton-jump` (or `merton`) and `heston`, in any ASCII case.
pub proof fn lemma_process_names(s: Seq<char>)
    ensures
        fold(s, false) == "gbm"@ ==> spec_parse_process(s) == Some(ProcessKind::Gbm),
        fold(s, false) == "ornstein-uhlenbeck"@ || fold(s, false) == "ou"@ ==> spec_parse_process(s) == Some(ProcessKind::OrnsteinUhlenbeck),
        fold(s, false) == "vasicek"@ ==> spec_parse_process(s) == Some(ProcessKind::Vasicek),
        fold(s, false) == "cir"@ ==> spec_parse_process(s) == Some(ProcessKind::Cir),
        fold(s, false) == "merton-jump"@ || fold(s, false) == "merton"@ ==> spec_parse_process(s) == Some(ProcessKind::MertonJump),
        fold(s, false) == "heston"@ ==> spec_parse_process(s) == Some(ProcessKind::Heston),
        spec_parse_process(fold(s, false)) == spec_parse_process(s),
{
    reveal_strlit("gbm");
    reveal_strlit("ornstein-uhlenbeck");
    reveal_strlit("ou");
    reveal_strlit("vasicek");
    reveal_strlit("cir");
    reveal_strlit("merton-jump");
    reveal_strlit("merton");
    reveal_strlit("heston");
    assert("gbm"@[0] != "cir"@[0]);
    assert("merton"@[0] != "heston"@[0]);
    lemma_fold_idempotent(s, false);
}

} // verus!
