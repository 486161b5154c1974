//! The lattice part of Perlin noise: a fixed permutation of the bytes,
//! the hash of a lattice corner, and the gradient that a hash picks.
//! Interpolating between the corners is left to the caller.

use vstd::prelude::*;

verus! {

/// The permutation of the bytes that every noise generator uses.
pub open spec fn permutation() -> Seq<u8> {
    seq![
        151, 160, 137, 91, 90, 15, 131, 13, 201, 95, 96, 53, 194, 233, 7, 225,
        140, 36, 103, 30, 69, 142, 8, 99, 37, 240, 21, 10, 23, 190, 6, 148,
        247, 120, 234, 75, 0, 26, 197, 62, 94, 252, 219, 203, 117, 35, 11, 32,
        57, 177, 33, 88, 237, 149, 56, 87, 174, 20, 125, 136, 171, 168, 68, 175,
        74, 165, 71, 134, 139, 48, 27, 166, 77, 146, 158, 231, 83, 111, 229, 122,
        60, 211, 133, 230, 220, 105, 92, 41, 55, 46, 245, 40, 244, 102, 143, 54,
        65, 25, 63, 161, 1, 216, 80, 73, 209, 76, 132, 187, 208, 89, 18, 169,
        200, 196, 135, 130, 116, 188, 159, 86, 164, 100, 109, 198, 173, 186, 3, 64,
        52, 217, 226, 250, 124, 123, 5, 202, 38, 147, 118, 126, 255, 82, 85, 212,
        207, 206, 59, 227, 47, 16, 58, 17, 182, 189, 28, 42, 223, 183, 170, 213,
        119, 248, 152, 2, 44, 154, 163, 70, 221, 153, 101, 155, 167, 43, 172, 9,
        129, 22, 39, 253, 19, 98, 108, 110, 79, 113, 224, 232, 178, 185, 112, 104,
        218, 246, 97, 228, 251, 34, 242, 193, 238, 210, 144, 12, 191, 179, 162, 241,
        81, 51, 145, 235, 249, 14, 239, 107, 49, 192, 214, 31, 181, 199, 106, 157,
        184, 84, 204, 176, 115, 121, 50, 45, 127, 4, 150, 254, 138, 236, 205, 93,
        222, 114, 67, 29, 24, 72, 243, 141, 128, 195, 78, 66, 215, 61, 156, 180,
    ]
}

/// Looks up the permutation, wrapping the index at 255.
pub open spec fn perm_at(i: int) -> int {
    permutation()[i % 255] as int
}

/// The hash of lattice corner (`x`, `y`, `z`).
pub open spec fn lattice_hash(x: int, y: int, z: int) -> int {
    perm_at(perm_at(perm_at(x) + y) + z)
}

/// The gradient, as coefficients of the offsets (x, y, z) from a corner,
/// that the low four bits of a hash pick.
pub open spec fn gradient_of(h: u8) -> (int, int, int) {
    let k = h % 16;
    if k == 0 {
        (1, 1, 0)
    } else if k == 1 {
        (-1, 1, 0)
    } else if k == 2 {
        (1, -1, 0)
    } else if k == 3 {
        (-1, -1, 0)
    } else if k == 4 {
        (1, 0, 1)
    } else if k == 5 {
        (-1, 0, 1)
    } else if k == 6 {
        (1, 0, -1)
    } else if k == 7 {
        (-1, 0, -1)
    } else if k == 8 {
        (0, 1, 1)
    } else if k == 9 {
        (0, -1, 1)
    } else if k == 10 {
        (0, 1, -1)
    } else if k == 11 {
        (0, -1, -1)
    } else if k == 12 {
        (1, 1, 0)
    } else if k == 13 {
        (0, -1, 1)
    } else if k == 14 {
        (-1, 1, 0)
    } else {
        (0, -1, -1)
    }
}

/// A Perlin noise generator: the permutation it hashes lattice corners with.
#[derive(Debug)]
pub struct Noise {
    perms: Vec<u8>,
}

impl Noise {
    #[verifier::type_invariant]
    spec fn inv(self) -> bool {
        self.perms@ == permutation()
    }

    pub closed spec fn table(&self) -> Seq<u8> {
        self.perms@
    }

    pub fn new() -> (n: Noise)
        ensures
            n.table() == permutation(),
    {
        let perms: Vec<u8> = vec![
            151, 160, 137, 91, 90, 15, 131, 13, 201, 95, 96, 53, 194, 233, 7, 225,
            140, 36, 103, 30, 69, 142, 8, 99, 37, 240, 21, 10, 23, 190, 6, 148,
            247, 120, 234, 75, 0, 26, 197, 62, 94, 252, 219, 203, 117, 35, 11, 32,
            57, 177, 33, 88, 237, 149, 56, 87, 174, 20, 125, 136, 171, 168, 68, 175,
            74, 165, 71, 134, 139, 48, 27, 166, 77, 146, 158, 231, 83, 111, 229, 122,
            60, 211, 133, 230, 220, 105, 92, 41, 55, 46, 245, 40, 244, 102, 143, 54,
            65, 25, 63, 161, 1, 216, 80, 73, 209, 76, 132, 187, 208, 89, 18, 169,
            200, 196, 135, 130, 116, 188, 159, 86, 164, 100, 109, 198, 173, 186, 3, 64,
            52, 217, 226, 250, 124, 123, 5, 202, 38, 147, 118, 126, 255, 82, 85, 212,
            207, 206, 59, 227, 47, 16, 58, 17, 182, 189, 28, 42, 223, 183, 170, 213,
            119, 248, 152, 2, 44, 154, 163, 70, 221, 153, 101, 155, 167, 43, 172, 9,
            129, 22, 39, 253, 19, 98, 108, 110, 79, 113, 224, 232, 178, 185, 112, 104,
            218, 246, 97, 228, 251, 34, 242, 193, 238, 210, 144, 12, 191, 179, 162, 241,
            81, 51, 145, 235, 249, 14, 239, 107, 49, 192, 214, 31, 181, 199, 106, 157,
            184, 84, 204, 176, 115, 121, 50, 45, 127, 4, 150, 254, 138, 236, 205, 93,
            222, 114, 67, 29, 24, 72, 243, 141, 128, 195, 78, 66, 215, 61, 156, 180,
        ];
        assert(perms@ =~= permutation());
        Noise { perms }
    }

    /// The permutation at `i`, with `i` wrapped at 255.
    pub fn p(&self, i: usize) -> (r: usize)
        ensures
            r == perm_at(i as int),
            r < 256,
    {
        proof {
            use_type_invariant(self);
        }
        self.perms[i % 255] as usize
    }

    /// The hash of lattice corner (`x`, `y`, `z`).
    pub fn hash(&self, x: usize, y: usize, z: usize) -> (r: u8)
        requires
            y <= usize::MAX - 256,
            z <= usize::MAX - 256,
        ensures
            r == lattice_hash(x as int, y as int, z as int),
    {
        let a = self.p(x);
        let b = self.p(a + y);
        self.p(b + z) as u8
    }
}

impl Clone for Noise {
    fn clone(&self) -> (n: Noise)
        ensures
            n.table() == self.table(),
    {
        proof {
            use_type_invariant(self);
        }
        let mut perms: Vec<u8> = Vec::new();
        let mut i: usize = 0;
        while i < self.perms.len()
            invariant
                i <= self.perms@.len(),
                perms@ == self.perms@.take(i as int),
            decreases self.perms@.len() - i,
        {
            perms.push(self.perms[i]);
            i = i + 1;
            assert(perms@ =~= self.perms@.take(i as int));
        }
        assert(perms@ =~= self.perms@);
        Noise { perms }
    }
}

/// The gradient that hash `h` picks.
pub fn gradient(h: u8) -> (r: (i8, i8, i8))
    ensures
        (r.0 as int, r.1 as int, r.2 as int) == gradient_of(h),
{
    let k = h % 16;
    if k == 0 {
        (1, 1, 0)
    } else if k == 1 {
        (-1, 1, 0)
    } else if k == 2 {
        (1, -1, 0)
    } else if k == 3 {
        (-1, -1, 0)
    } else if k == 4 {
        (1, 0, 1)
    } else if k == 5 {
        (-1, 0, 1)
    } else if k == 6 {
        (1, 0, -1)
    } else if k == 7 {
        (-1, 0, -1)
    } else if k == 8 {
        (0, 1, 1)
    } else if k == 9 {
        (0, -1, 1)
    } else if k == 10 {
        (0, 1, -1)
    } else if k == 11 {
        (0, -1, -1)
    } else if k == 12 {
        (1, 1, 0)
    } else if k == 13 {
        (0, -1, 1)
    } else if k == 14 {
        (-1, 1, 0)
    } else {
        (0, -1, -1)
    }
}

} // verus!
