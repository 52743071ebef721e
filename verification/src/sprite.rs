//! Index generation for the sprite batcher.
//!
//! Each sprite is a quad of four vertices drawn as two triangles; the GPU
//! plumbing around the buffers lives outside the library.

use vstd::prelude::*;

verus! {

/// The `k`-th entry of the quad index pattern: within the `k/6`-th quad,
/// the two triangles `(0, 1, 2)` and `(2, 3, 0)` over its four vertices.
pub open spec fn quad_index(k: int) -> int {
    let quad = k / 6;
    let slot = k % 6;
    4 * quad + (if slot == 0 {
        0int
    } else if slot == 1 {
        1int
    } else if slot == 2 {
        2int
    } else if slot == 3 {
        2int
    } else if slot == 4 {
        3int
    } else {
        0int
    })
}

/// The index list for a batch of quads: six entries per sprite, each
/// following the quad index pattern.
#[verifier::loop_isolation(false)]
pub fn indices(sprites: u16) -> (r: Vec<u16>)
    requires
        4 * sprites <= 0x1_0000,
    ensures
        r@.len() == 6 * sprites,
        forall|k: int| 0 <= k < r@.len() ==> r@[k] == quad_index(k),
{
    let mut indicies = Vec::<u16>::new();
    let mut i: u16 = 0;
    while i < sprites
        invariant
            i <= sprites,
            indicies@.len() == 6 * i,
            forall|k: int| 0 <= k < indicies@.len() ==> indicies@[k] == quad_index(k),
        decreases sprites - i,
    {
        let offset = i * 4;
        indicies.push(offset);
        indicies.push(1 + offset);
        indicies.push(2 + offset);
        indicies.push(2 + offset);
        indicies.push(3 + offset);
        indicies.push(offset);
        proof {
            let base = 6 * (i as int);
            assert forall|k: int| base <= k < base + 6 implies indicies@[k] == quad_index(k) by {
                vstd::arithmetic::div_mod::lemma_fundamental_div_mod_converse(
                    k,
                    6,
                    i as int,
                    k - base,
                );
            }
        }
        i = i + 1;
    }
    indicies
}

} // verus!
