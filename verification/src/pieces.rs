//! A small built-in piece catalog: the straight and the tee shapes with
//! all four rotation states written out.

#![allow(non_snake_case)]

use vstd::prelude::*;

verus! {

use crate::piece::PieceShape;

/// The built-in shapes.
pub struct PieceList {
    pub I_type: PieceShape,
    pub T_type: PieceShape,
}

impl PieceList {
    pub fn new() -> (r: PieceList)
        ensures
            r.I_type@[0]@ == seq![(0i8, 0i8), (0i8, 1i8), (0i8, 2i8), (0i8, 3i8)],
            r.I_type@[1]@ == seq![(0i8, 2i8), (1i8, 2i8), (2i8, 2i8), (3i8, 2i8)],
            r.I_type@[2]@ == seq![(1i8, 0i8), (1i8, 1i8), (1i8, 2i8), (1i8, 3i8)],
            r.I_type@[3]@ == seq![(0i8, 1i8), (1i8, 1i8), (2i8, 1i8), (3i8, 1i8)],
            r.T_type@[0]@ == seq![(0i8, 1i8), (1i8, 0i8), (1i8, 1i8), (1i8, 2i8)],
            r.T_type@[1]@ == seq![(0i8, 1i8), (1i8, 1i8), (1i8, 2i8), (2i8, 1i8)],
            r.T_type@[2]@ == seq![(1i8, 0i8), (1i8, 1i8), (1i8, 2i8), (2i8, 1i8)],
            r.T_type@[3]@ == seq![(0i8, 1i8), (1i8, 0i8), (1i8, 1i8), (2i8, 1i8)],
            crate::piece::shape_wf(r.I_type),
            crate::piece::shape_wf(r.T_type),
    {
        let I_type: PieceShape = [
            vec![(0i8, 0i8), (0i8, 1i8), (0i8, 2i8), (0i8, 3i8)],
            vec![(0i8, 2i8), (1i8, 2i8), (2i8, 2i8), (3i8, 2i8)],
            vec![(1i8, 0i8), (1i8, 1i8), (1i8, 2i8), (1i8, 3i8)],
            vec![(0i8, 1i8), (1i8, 1i8), (2i8, 1i8), (3i8, 1i8)],
        ];
        let T_type: PieceShape = [
            vec![(0i8, 1i8), (1i8, 0i8), (1i8, 1i8), (1i8, 2i8)],
            vec![(0i8, 1i8), (1i8, 1i8), (1i8, 2i8), (2i8, 1i8)],
            vec![(1i8, 0i8), (1i8, 1i8), (1i8, 2i8), (2i8, 1i8)],
            vec![(0i8, 1i8), (1i8, 0i8), (1i8, 1i8), (2i8, 1i8)],
        ];
        PieceList { I_type, T_type }
    }
}

} // verus!
