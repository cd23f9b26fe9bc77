//! The annealing optimizer: repeatedly clones the current canvas, injects
//! pixel-flip noise, re-evaluates the energy against the fixed reference
//! histogram, and keeps the candidate exactly when its energy strictly
//! improves. No uphill move is ever accepted, so the current energy never
//! increases over the run.

use vstd::prelude::*;
use crate::access::BinaryPixelAccess;
use crate::canvas::{randomize_bitmap, BitImage};
use crate::energy::{energy_num, evaluate_bitmap, spec_hist, Energy};
use crate::histogram::{total_blocks, TextureHash};

verus! {

/// The exact energy of the canvas against the reference histogram, as
/// `evaluate_bitmap` returns it.
pub open spec fn canvas_energy(img: BitImage, hash: TextureHash) -> int {
    energy_num(spec_hist(img), total_blocks(img), hash.counts(), hash.spec_total())
}

/// One annealing transition: clone the canvas, inject noise, evaluate, and
/// accept the candidate exactly when its energy strictly improves. The
/// returned energy is the canvas's energy after the step and never exceeds
/// the energy before it.
pub fn anneal_step(
    hash: &TextureHash,
    img: &mut BitImage,
    rng: &mut rand::rngs::StdRng,
    energy: Energy,
    noise_num: u32,
    noise_den: u32,
) -> (r: Energy)
    requires
        hash.wf(),
        hash.spec_total() > 0,
        old(img).inv(),
        old(img).spec_width() <= u32::MAX,
        old(img).spec_height() <= u32::MAX,
        0 < total_blocks(*old(img)) <= u32::MAX,
        0 < noise_den,
        noise_num <= noise_den,
        energy.num == canvas_energy(*old(img), *hash),
        energy.den == total_blocks(*old(img)) * hash.spec_total(),
    ensures
        final(img).inv(),
        final(img).spec_width() == old(img).spec_width(),
        final(img).spec_height() == old(img).spec_height(),
        r.den == energy.den,
        r.num <= energy.num,
        r.num == canvas_energy(*final(img), *hash),
{
    let mut candidate = img.duplicate();
    randomize_bitmap(&mut candidate, rng, noise_num, noise_den);
    let cand_energy = evaluate_bitmap(&candidate, hash);
    if cand_energy.num < energy.num {
        *img = candidate;
        cand_energy
    } else {
        energy
    }
}

/// Runs the optimizer for a fixed number of steps from the given canvas.
/// The canvas keeps its dimensions, and its final energy against the
/// reference histogram never exceeds its initial energy.
pub fn anneal(
    hash: &TextureHash,
    img: &mut BitImage,
    rng: &mut rand::rngs::StdRng,
    noise_num: u32,
    noise_den: u32,
    anneal_steps: usize,
)
    requires
        hash.wf(),
        hash.spec_total() > 0,
        old(img).inv(),
        old(img).spec_width() <= u32::MAX,
        old(img).spec_height() <= u32::MAX,
        0 < total_blocks(*old(img)) <= u32::MAX,
        0 < noise_den,
        noise_num <= noise_den,
    ensures
        final(img).inv(),
        final(img).spec_width() == old(img).spec_width(),
        final(img).spec_height() == old(img).spec_height(),
        canvas_energy(*final(img), *hash) <= canvas_energy(*old(img), *hash),
{
    let mut energy = evaluate_bitmap(img, hash);
    let ghost initial_num = energy.num;
    let mut step: usize = 0;
    while step < anneal_steps
        invariant
            hash.wf(),
            hash.spec_total() > 0,
            0 < noise_den,
            noise_num <= noise_den,
            img.inv(),
            img.spec_width() == old(img).spec_width(),
            img.spec_height() == old(img).spec_height(),
            img.spec_width() <= u32::MAX,
            img.spec_height() <= u32::MAX,
            0 < total_blocks(*img) <= u32::MAX,
            0 <= step <= anneal_steps,
            energy.num == canvas_energy(*img, *hash),
            energy.den == total_blocks(*img) * hash.spec_total(),
            energy.num <= initial_num,
            initial_num == canvas_energy(*old(img), *hash),
        decreases anneal_steps - step,
    {
        energy = anneal_step(hash, img, rng, energy, noise_num, noise_den);
        step = step + 1;
    }
}

} // verus!
