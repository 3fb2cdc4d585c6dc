//! Symmetry-breaking jitter applied to freshly laid-out particle grids,
//! so that perfectly aligned particles do not produce degenerate
//! (zero-length) contact gradients.
use vstd::prelude::*;

use crate::fixed::Fx;
use crate::vec3::Vec3;

verus! {

/// Relies on rand::random::<u16>: a freshly drawn sample each call.  The
/// value depends on the generator's state, so nothing is promised of it
/// beyond its range: every outcome lies in `[0, 65536)` raw units.
#[verifier::external_body]
fn random_unit() -> (r: Fx)
    ensures
        0 <= r.raw < 65536,
        r.wf(),
{
    Fx { raw: rand::random::<u16>() as i64 }
}

/// Displace every position by an independent random offset of at most the
/// given amplitude per axis.
pub fn jitter_positions(pos: &mut Vec<Vec3>, amp: Fx)
    requires
        forall|i: int| 0 <= i < old(pos)@.len() ==> (#[trigger] old(pos)@[i]).wf(),
        amp.wf(),
    ensures
        final(pos)@.len() == old(pos)@.len(),
        forall|i: int| 0 <= i < final(pos)@.len() ==> (#[trigger] final(pos)@[i]).wf(),
{
    let n = pos.len();
    let mut i: usize = 0;
    while i < n
        invariant
            n == pos@.len(),
            amp.wf(),
            i <= n,
            forall|k: int| 0 <= k < pos@.len() ==> (#[trigger] pos@[k]).wf(),
        decreases n - i,
    {
        let p = pos[i];
        let dx = amp.mul(random_unit());
        let dy = amp.mul(random_unit());
        let dz = amp.mul(random_unit());
        let q = p.add(Vec3 { x: dx, y: dy, z: dz });
        pos.set(i, q);
        i = i + 1;
    }
}

} // verus!
