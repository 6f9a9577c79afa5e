//! Kauffman criticality of the matrix: where K/N falls relative to the
//! critical zone 0.5 ≤ K/N ≤ 3.0.

use vstd::prelude::*;

use crate::nkp::matrix::{grid_sum, NkpMatrix};

verus! {

/// The three regimes of K/N.
#[derive(Debug, Clone, Copy, PartialEq, Eq, Structural)]
pub enum Zone {
    /// K/N < 0.5 (an empty matrix counts as K/N = 0).
    UnderConnected,
    /// 0.5 ≤ K/N ≤ 3.0.
    Critical,
    /// K/N > 3.0.
    OverConnected,
}

/// The regime of `k` connections over `n` nodes, compared exactly:
/// K/N < 1/2 is 2K < N, and K/N ≤ 3 is K ≤ 3N.
pub open spec fn zone_of(n: nat, k: nat) -> Zone {
    if n == 0 || 2 * k < n {
        Zone::UnderConnected
    } else if k <= 3 * n {
        Zone::Critical
    } else {
        Zone::OverConnected
    }
}

/// The regime of a matrix with `n` nodes and `k` connections.
pub fn zone(n: usize, k: usize) -> (r: Zone)
    ensures
        r == zone_of(n as nat, k as nat),
{
    if n == 0 || (k as u128) * 2 < n as u128 {
        Zone::UnderConnected
    } else if (k as u128) <= (n as u128) * 3 {
        Zone::Critical
    } else {
        Zone::OverConnected
    }
}

/// The assessment sentence of a regime.
pub open spec fn assessment_text(z: Zone) -> Seq<char> {
    match z {
        Zone::UnderConnected => "under-connected: K/N < 0.5, system has too few connections to exhibit robust emergent behavior"@,
        Zone::Critical => "critical: 0.5 ≤ K/N ≤ 3.0, system is in the zone of criticality (Kauffman K≈2)"@,
        Zone::OverConnected => "over-connected: K/N > 3.0, system has too many connections and may be chaotic"@,
    }
}

impl Zone {
    /// The assessment the CLI prints for the regime.
    pub fn assessment(&self) -> (r: &'static str)
        ensures
            r@ == assessment_text(*self),
    {
        match self {
            Zone::UnderConnected => "under-connected: K/N < 0.5, system has too few connections to exhibit robust emergent behavior",
            Zone::Critical => "critical: 0.5 ≤ K/N ≤ 3.0, system is in the zone of criticality (Kauffman K≈2)",
            Zone::OverConnected => "over-connected: K/N > 3.0, system has too many connections and may be chaotic",
        }
    }
}

/// The regime of a matrix: N stressors plus components, K marked cells.
pub fn assess_zone(matrix: &NkpMatrix) -> (r: Zone)
    requires
        matrix.wf(),
        matrix.rows() + matrix.cols() <= usize::MAX,
        matrix.rows() * matrix.cols() <= usize::MAX,
    ensures
        r == zone_of((matrix.rows() + matrix.cols()) as nat, grid_sum(matrix.grid()) as nat),
{
    let n = matrix.n();
    let k = matrix.k();
    zone(n, k)
}

} // verus!
