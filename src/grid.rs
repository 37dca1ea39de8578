use vstd::prelude::*;

verus! {

/// Why a configuration was refused.
#[derive(Clone, Copy, Debug, PartialEq, Eq, Structural)]
pub enum ConfigError {
    /// The grid has no pixels.
    EmptyGrid,
    /// `n * n` does not fit in a `usize`.
    GridTooLarge,
    /// The iteration cap is zero.
    ZeroDepth,
    /// No worker would run.
    NoWorkers,
}

/// The integer part of a run's configuration: grid side, iteration cap and
/// worker count.
#[derive(Clone, Copy, Debug, PartialEq, Eq, Structural)]
pub struct GridConfig {
    pub n: usize,
    pub depth: usize,
    pub workers: usize,
}

impl GridConfig {
    pub open spec fn wf(self) -> bool {
        &&& self.n >= 1
        &&& self.n * self.n <= usize::MAX
        &&& self.depth >= 1
        &&& self.workers >= 1
    }

    /// Number of pixels, `n * n`.
    pub open spec fn pixels(self) -> nat {
        (self.n * self.n) as nat
    }

    /// Checks a configuration. The first failing condition, in the order
    /// grid, size, depth, workers, is reported.
    pub fn new(n: usize, depth: usize, workers: usize) -> (r: Result<GridConfig, ConfigError>)
        ensures
            n == 0 ==> r == Err::<GridConfig, ConfigError>(ConfigError::EmptyGrid),
            n >= 1 && n * n > usize::MAX ==> r == Err::<GridConfig, ConfigError>(ConfigError::GridTooLarge),
            n >= 1 && n * n <= usize::MAX && depth == 0 ==> r == Err::<GridConfig, ConfigError>(
                ConfigError::ZeroDepth,
            ),
            n >= 1 && n * n <= usize::MAX && depth >= 1 && workers == 0 ==> r == Err::<
                GridConfig,
                ConfigError,
            >(ConfigError::NoWorkers),
            r.is_ok() <==> n >= 1 && n * n <= usize::MAX && depth >= 1 && workers >= 1,
            r matches Ok(c) ==> c.wf() && c.n == n && c.depth == depth && c.workers == workers,
    {
        if n == 0 {
            return Err(ConfigError::EmptyGrid);
        }
        if n > usize::MAX / n {
            proof {
                assert(n * n > usize::MAX) by (nonlinear_arith)
                    requires n > usize::MAX / n, n >= 1;
            }
            return Err(ConfigError::GridTooLarge);
        }
        proof {
            assert(n * n <= usize::MAX) by (nonlinear_arith)
                requires n <= usize::MAX / n, n >= 1;
        }
        if depth == 0 {
            return Err(ConfigError::ZeroDepth);
        }
        if workers == 0 {
            return Err(ConfigError::NoWorkers);
        }
        Ok(GridConfig { n, depth, workers })
    }

    /// Number of pixels of the grid.
    pub fn pixel_count(&self) -> (r: usize)
        requires
            self.wf(),
        ensures
            r == self.pixels(),
    {
        self.n * self.n
    }
}

/// The column and row of linear pixel index `idx` on a grid of side `n`:
/// `idx = row * n + column`.
pub fn pixel_coords(n: usize, idx: usize) -> (r: (usize, usize))
    requires
        n >= 1,
        idx < n * n,
    ensures
        r.0 == idx % n,
        r.1 == idx / n,
        r.0 < n && r.1 < n,
        idx == r.1 * n + r.0,
{
    proof {
        assert(idx / n < n) by (nonlinear_arith)
            requires idx < n * n, n >= 1;
        assert(idx == (idx / n) * n + idx % n) by (nonlinear_arith)
            requires n >= 1;
    }
    (idx % n, idx / n)
}

} // verus!
