//! The epicycle engine.
//!
//! A deterministic per-frame animation over a spectral model: each tick
//! advances a global phase of one `n`-th of a turn (where `n` is the
//! original, unreduced sequence length), chains one rotating vector per
//! retained component — each component's vector turns `freq` times as fast
//! as the global phase and starts from the component's coefficient — and
//! appends the chain's final tip to an append-only orbit trail. After
//! exactly `n` ticks the engine is completed: further ticks change nothing
//! and emit no circles.
//!
//! Rotation is exact integer arithmetic over a rotation table supplied at
//! construction: `rot[m]` stands for `scale * e^(i*2*pi*m/n)`, so the vector
//! of a component with bin `b` at tick `t` is its coefficient rotated by
//! table entry `(b * t) mod n`. The engine is a pure function of its
//! spectral model, table and tick count: no hidden state, no randomness.

use vstd::prelude::*;

use crate::complex::{
    all_in_range, cx_plus, cx_rotate, in_range, Complex, COEFF_LIMIT, COORD_LIMIT, SEQ_LIMIT,
};
use crate::error::Error;
use crate::spectrum::{component_wf, FrequencyComponent, SpectralModel};

verus! {

/// What the render sink draws for one component at one tick: the circle's
/// center (the chain so far), its radius (the component's magnitude), and
/// the tip the rotating vector currently points at. The phase bar of the
/// classical picture is the segment from `center` to `tip`.
#[derive(Clone, Copy, Debug, PartialEq, Eq, Structural)]
pub struct CircleDescriptor {
    /// The base of this component's rotating vector.
    pub center: Complex,
    /// The circle's radius: the component's integer magnitude.
    pub radius: i64,
    /// `center` plus the component's current vector.
    pub tip: Complex,
}

/// The rotation-table index a component with bin `bin` uses at tick `t`.
pub open spec fn rot_index(bin: int, t: int, n: int) -> int {
    (bin * t) % n
}

/// The chain position after the first `j` components at tick `t`: the sum
/// of their rotated coefficients, starting at the origin.
pub open spec fn chain_center(
    comps: Seq<FrequencyComponent>,
    rot: Seq<Complex>,
    scale: int,
    t: int,
    j: int,
) -> Complex
    decreases j,
{
    if j <= 0 {
        Complex { re: 0, im: 0 }
    } else {
        cx_plus(
            chain_center(comps, rot, scale, t, j - 1),
            cx_rotate(
                comps[j - 1].coeff,
                rot[rot_index(comps[j - 1].bin as int, t, rot.len() as int)],
                scale,
            ),
        )
    }
}

/// The reconstructed boundary point of tick `t`: the chain's final tip.
pub open spec fn tick_point(
    comps: Seq<FrequencyComponent>,
    rot: Seq<Complex>,
    scale: int,
    t: int,
) -> Complex {
    chain_center(comps, rot, scale, t, comps.len() as int)
}

/// The orbit trail after `ticks` tick calls on a fresh engine: one point
/// per tick up to `n`, nothing after.
pub open spec fn run_trail(
    comps: Seq<FrequencyComponent>,
    rot: Seq<Complex>,
    scale: int,
    n: int,
    ticks: int,
) -> Seq<Complex>
    decreases ticks,
{
    if ticks <= 0 || n <= 0 {
        Seq::empty()
    } else if ticks <= n {
        run_trail(comps, rot, scale, n, ticks - 1).push(tick_point(comps, rot, scale, ticks))
    } else {
        run_trail(comps, rot, scale, n, n)
    }
}

/// The per-frame animation engine. The only mutable entity of the crate:
/// one tick call mutates exactly `tick_count`, `orbit_trail` and
/// `completed`, and the well-formedness invariant pins the whole trail as a
/// function of the immutable construction data and the tick count.
///
/// The global phase of the animation is `tick_count / seq_len` of a full
/// turn; it is kept as the exact pair rather than an inexact angle.
#[derive(Clone, Debug)]
pub struct EpicycleEngine {
    /// The retained components, in stored order; never mutated.
    pub components: Vec<FrequencyComponent>,
    /// The rotation table: `rot[m]` stands for `scale * e^(i*2*pi*m/seq_len)`.
    pub rot: Vec<Complex>,
    /// The rotation table's scale.
    pub scale: i64,
    /// The original, unreduced sequence length: ticks per full traversal.
    pub seq_len: usize,
    /// How many effective ticks have happened; capped at `seq_len`.
    pub tick_count: usize,
    /// The points traced by the chain's tip, one per effective tick.
    pub orbit_trail: Vec<Complex>,
    /// Whether a full period has been traced; terminal.
    pub completed: bool,
}

impl EpicycleEngine {
    /// The engine's invariant: construction data within the crate's limits,
    /// the tick count within one period, completion exactly at the period's
    /// end, and the trail equal to `run_trail` of the tick count.
    pub open spec fn wf(self) -> bool {
        &&& 1 <= self.seq_len <= SEQ_LIMIT
        &&& 1 <= self.scale <= COORD_LIMIT
        &&& self.rot@.len() == self.seq_len
        &&& all_in_range(self.rot@, self.scale as int)
        &&& self.components@.len() <= self.seq_len
        &&& forall|i: int|
            0 <= i < self.components@.len() ==> component_wf(
                #[trigger] self.components@[i],
                self.seq_len as int,
            )
        &&& self.tick_count <= self.seq_len
        &&& (self.completed <==> self.tick_count == self.seq_len)
        &&& self.orbit_trail@ == run_trail(
            self.components@,
            self.rot@,
            self.scale as int,
            self.seq_len as int,
            self.tick_count as int,
        )
    }

    /// Builds a fresh engine over a spectral model and a rotation table.
    ///
    /// Fails with `InvalidInput` exactly when the model is not well-formed,
    /// the table's length differs from the model's sequence length, the
    /// scale lies outside `1 ..= COORD_LIMIT`, or a table entry exceeds the
    /// scale.
    pub fn new(model: SpectralModel, rot: Vec<Complex>, scale: i64) -> (r: Result<
        EpicycleEngine,
        Error,
    >)
        ensures
            r is Ok <==> {
                &&& model.wf()
                &&& rot@.len() == model.seq_len
                &&& 1 <= scale <= COORD_LIMIT
                &&& all_in_range(rot@, scale as int)
            },
            r matches Ok(e) ==> {
                &&& e.wf()
                &&& e.components@ == model.components@
                &&& e.rot@ == rot@
                &&& e.scale == scale
                &&& e.seq_len == model.seq_len
                &&& e.tick_count == 0
                &&& !e.completed
                &&& e.orbit_trail@ == Seq::<Complex>::empty()
            },
    {
        if !(1 <= scale && scale <= COORD_LIMIT) {
            return Err(Error::InvalidInput);
        }
        if !model_wf_exec(&model) {
            return Err(Error::InvalidInput);
        }
        if rot.len() != model.seq_len {
            return Err(Error::InvalidInput);
        }
        if !crate::complex::coords_within(&rot, scale) {
            return Err(Error::InvalidInput);
        }
        let seq_len = model.seq_len;
        Ok(
            EpicycleEngine {
                components: model.components,
                rot,
                scale,
                seq_len,
                tick_count: 0,
                orbit_trail: Vec::new(),
                completed: false,
            },
        )
    }

    /// Advances the animation by one frame.
    ///
    /// While running: increments the tick count, chains one rotating vector
    /// per component, returns their circle descriptors in stored order, and
    /// appends the chain's tip to the orbit trail; completes when the tick
    /// count reaches the sequence length. Once completed: changes nothing
    /// and returns no descriptors.
    pub fn tick(&mut self) -> (descs: Vec<CircleDescriptor>)
        requires
            old(self).wf(),
        ensures
            final(self).wf(),
            final(self).components@ == old(self).components@,
            final(self).rot@ == old(self).rot@,
            final(self).scale == old(self).scale,
            final(self).seq_len == old(self).seq_len,
            old(self).completed ==> *final(self) == *old(self) && descs@.len() == 0,
            !old(self).completed ==> {
                let t = old(self).tick_count + 1;
                let comps = old(self).components@;
                let rot = old(self).rot@;
                let scale = old(self).scale as int;
                &&& final(self).tick_count == t
                &&& (final(self).completed <==> t == old(self).seq_len)
                &&& final(self).orbit_trail@ == old(self).orbit_trail@.push(
                    tick_point(comps, rot, scale, t),
                )
                &&& descs@.len() == comps.len()
                &&& forall|j: int|
                    0 <= j < comps.len() ==> #[trigger] descs@[j] == (CircleDescriptor {
                        center: chain_center(comps, rot, scale, t, j),
                        radius: comps[j].magnitude,
                        tip: chain_center(comps, rot, scale, t, j + 1),
                    })
            },
    {
        if self.completed {
            return Vec::new();
        }
        let t = self.tick_count + 1;
        let n = self.seq_len;
        let ghost comps = self.components@;
        let ghost grot = self.rot@;
        let ghost gscale = self.scale as int;
        let mut descs: Vec<CircleDescriptor> = Vec::new();
        let mut center = Complex { re: 0, im: 0 };
        let mut j: usize = 0;
        while j < self.components.len()
            invariant
                0 <= j <= self.components@.len(),
                self.wf(),
                !self.completed,
                self.components@ == comps,
                self.rot@ == grot,
                self.scale == gscale,
                self.seq_len == n,
                1 <= t <= n,
                center == chain_center(comps, grot, gscale, t as int, j as int),
                in_range(center, (j as int) * (2 * COEFF_LIMIT as int)),
                descs@.len() == j,
                forall|q: int|
                    0 <= q < j ==> #[trigger] descs@[q] == (CircleDescriptor {
                        center: chain_center(comps, grot, gscale, t as int, q),
                        radius: comps[q].magnitude,
                        tip: chain_center(comps, grot, gscale, t as int, q + 1),
                    }),
            decreases self.components@.len() - j,
        {
            let comp = self.components[j];
            proof {
                assert((comp.bin as int) * (t as int) <= 0x100_0000_0000int) by (nonlinear_arith)
                    requires
                        0 <= comp.bin <= SEQ_LIMIT,
                        0 <= t <= SEQ_LIMIT,
                ;
                vstd::arithmetic::div_mod::lemma_mod_division_less_than_divisor(
                    (comp.bin as int) * (t as int),
                    n as int,
                );
            }
            let idx_wide: u64 = (comp.bin as u64) * (t as u64) % (n as u64);
            let idx = idx_wide as usize;
            let v = comp.coeff.rotate(self.rot[idx], self.scale);
            proof {
                lemma_chain_step_bound(j as int, center, v);
            }
            let tip = center.plus(v);
            descs.push(
                CircleDescriptor { center, radius: comp.magnitude, tip },
            );
            center = tip;
            j += 1;
        }
        self.orbit_trail.push(center);
        self.tick_count = t;
        if t == n {
            self.completed = true;
        }
        descs
    }
}

/// One chain step stays within the next multiple of the vector bound, which
/// itself stays far within `i64`.
proof fn lemma_chain_step_bound(j: int, center: Complex, v: Complex)
    requires
        0 <= j <= SEQ_LIMIT,
        in_range(center, j * (2 * COEFF_LIMIT as int)),
        in_range(v, 2 * COEFF_LIMIT as int),
    ensures
        -((j + 1) * (2 * COEFF_LIMIT as int)) <= center.re + v.re <= (j + 1) * (2
            * COEFF_LIMIT as int),
        -((j + 1) * (2 * COEFF_LIMIT as int)) <= center.im + v.im <= (j + 1) * (2
            * COEFF_LIMIT as int),
        in_range(cx_plus(center, v), (j + 1) * (2 * COEFF_LIMIT as int)),
        (j + 1) * (2 * COEFF_LIMIT as int) <= 0x2_0000_0000_0000_0000int,
{
    let b = 2 * COEFF_LIMIT as int;
    assert((j + 1) * b == j * b + b) by (nonlinear_arith);
    assert((j + 1) * b <= 0x2_0000_0000_0000_0000int) by (nonlinear_arith)
        requires
            0 <= j <= SEQ_LIMIT,
            b == 2 * COEFF_LIMIT as int,
    ;
}

/// Checks executably that a spectral model is well-formed.
fn model_wf_exec(model: &SpectralModel) -> (r: bool)
    ensures
        r == model.wf(),
{
    let n = model.seq_len;
    if !(1 <= n && n <= SEQ_LIMIT && model.components.len() <= n) {
        return false;
    }
    let mut i: usize = 0;
    while i < model.components.len()
        invariant
            0 <= i <= model.components@.len(),
            1 <= n <= SEQ_LIMIT,
            model.components@.len() <= n,
            model.seq_len == n,
            forall|q: int| 0 <= q < i ==> component_wf(#[trigger] model.components@[q], n as int),
        decreases model.components@.len() - i,
    {
        if !crate::spectrum::component_wf_exec(&model.components[i], n) {
            return false;
        }
        i += 1;
    }
    true
}

/// Engine determinism: two well-formed engines built from the same spectral
/// model, rotation table and scale, and ticked the same number of times,
/// hold identical orbit trails — there is no hidden state or randomness.
pub proof fn lemma_engine_deterministic(a: EpicycleEngine, b: EpicycleEngine)
    requires
        a.wf(),
        b.wf(),
        a.components@ == b.components@,
        a.rot@ == b.rot@,
        a.scale == b.scale,
        a.seq_len == b.seq_len,
        a.tick_count == b.tick_count,
    ensures
        a.orbit_trail@ == b.orbit_trail@,
{
}

/// Completion: a well-formed engine is completed exactly when its tick
/// count has reached the sequence length, holds one trail point per
/// effective tick, and — by `tick`'s contract — further ticks leave the
/// trail and the count unchanged.
pub proof fn lemma_completion(e: EpicycleEngine)
    requires
        e.wf(),
    ensures
        e.completed <==> e.tick_count == e.seq_len,
        e.orbit_trail@.len() == e.tick_count,
{
    lemma_run_trail_len(e.components@, e.rot@, e.scale as int, e.seq_len as int, e.tick_count as int);
}

/// The trail after `ticks` ticks holds `min(ticks, n)` points.
proof fn lemma_run_trail_len(
    comps: Seq<FrequencyComponent>,
    rot: Seq<Complex>,
    scale: int,
    n: int,
    ticks: int,
)
    requires
        0 <= ticks <= n,
    ensures
        run_trail(comps, rot, scale, n, ticks).len() == ticks,
    decreases ticks,
{
    if ticks > 0 {
        lemma_run_trail_len(comps, rot, scale, n, ticks - 1);
    }
}

} // verus!
