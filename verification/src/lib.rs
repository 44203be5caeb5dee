//! Verified core of a 2D tile-based game engine.
//!
//! The crate models the engine's algorithmic heart on plain values and
//! proves it correct: the resource and shared-part pipeline caches, the
//! bindable and uniform-buffer synchronization model, the frame driver's
//! queue/rotation state machine, the tilemap batcher with its animation
//! clocks, texture-atlas re-tiling, and a chunked hitbox index with a
//! swept-collision solver carried out in exact integer arithmetic.

use vstd::prelude::*;

pub mod anim;
pub mod character;
pub mod colliders;
pub mod drawable;
pub mod frac;
pub mod gpu;
pub mod input;
pub mod items;
pub mod mesh;
pub mod pipeline;
pub mod renderer;
pub mod texture;
pub mod tilemap;
pub mod ui;
pub mod uniform;

verus! {

/// Floor division on integers: rounds toward negative infinity.
///
/// Chunk coordinates of the hitbox index are `floor(coord / chunk_size)`,
/// which differs from Rust's truncating `/` on negative coordinates.
pub fn floor_div(a: i64, b: i64) -> (r: i64)
    requires
        b > 0,
        -0x4000_0000_0000_0000 < a < 0x4000_0000_0000_0000,
    ensures
        r == (a as int) / (b as int),
{
    let q: i64 = a / b;
    let rem: i64 = a % b;
    proof {
        vstd::arithmetic::div_mod::lemma_fundamental_div_mod(a as int, b as int);
        vstd::arithmetic::div_mod::lemma_mod_bound(a as int, b as int);
        if a >= 0 {
            assert(a == q * b + rem) by (nonlinear_arith)
                requires
                    q == (a as int) / (b as int),
                    rem == (a as int) % (b as int),
                    b > 0,
                    a as int == b * ((a as int) / (b as int)) + ((a as int) % (b as int)),
            ;
            assert(0 <= rem < b);
        } else {
            vstd::arithmetic::div_mod::lemma_fundamental_div_mod(-(a as int), b as int);
            vstd::arithmetic::div_mod::lemma_mod_bound(-(a as int), b as int);
            assert(a == q * b + rem) by (nonlinear_arith)
                requires
                    q == -((-(a as int)) / (b as int)),
                    rem == -((-(a as int)) % (b as int)),
                    b > 0,
                    -(a as int) == b * ((-(a as int)) / (b as int)) + ((-(a as int)) % (b as int)),
            ;
            assert(-b < rem <= 0);
        }
    }
    if rem != 0 && a < 0 {
        proof {
            assert((q - 1) * b + (rem + b) == q * b + rem) by (nonlinear_arith);
            vstd::arithmetic::div_mod::lemma_fundamental_div_mod_converse(
                a as int, b as int, q - 1, rem + b);
        }
        q - 1
    } else {
        proof {
            vstd::arithmetic::div_mod::lemma_fundamental_div_mod_converse(
                a as int, b as int, q as int, rem as int);
        }
        q
    }
}

} // verus!
