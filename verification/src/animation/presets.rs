//! Ready-made curves.

use super::AnimationCurve;
use crate::scalar::{whole, Double};
use vstd::arithmetic::power2::{lemma2_to64_rest, pow2};
use vstd::prelude::*;

verus! {

/// A spring whose damping is critical or more: the square of the damping is at least
/// four times the stiffness times the mass. Such a spring never swings past its end.
pub open spec fn damped(curve: AnimationCurve) -> bool {
    match curve {
        AnimationCurve::Spring { stiffness, damping, mass } => whole(damping) * whole(damping) >= 4
            * whole(stiffness) * whole(mass),
        _ => false,
    }
}

/// The numbers of the springs below.
proof fn lemma_whole_numbers()
    ensures
        whole(Double { bits: 0x4079_0000_0000_0000 }) == 400,
        whole(Double { bits: 0x403e_0000_0000_0000 }) == 30,
        whole(Double { bits: 0x3ff0_0000_0000_0000 }) == 1,
        whole(Double { bits: 0x4072_c000_0000_0000 }) == 300,
        whole(Double { bits: 0x402e_0000_0000_0000 }) == 15,
        whole(Double { bits: 0x4044_0000_0000_0000 }) == 40,
{
    lemma2_to64_rest();
    let p: int = pow2(44) as int;
    assert(0x19000000000000int / p == 400) by (nonlinear_arith)
        requires
            p == 0x100000000000,
    ;
    let p: int = pow2(48) as int;
    assert(0x1e000000000000int / p == 30) by (nonlinear_arith)
        requires
            p == 0x1000000000000,
    ;
    let p: int = pow2(52) as int;
    assert(0x10000000000000int / p == 1) by (nonlinear_arith)
        requires
            p == 0x10000000000000,
    ;
    let p: int = pow2(44) as int;
    assert(0x12c00000000000int / p == 300) by (nonlinear_arith)
        requires
            p == 0x100000000000,
    ;
    let p: int = pow2(49) as int;
    assert(0x1e000000000000int / p == 15) by (nonlinear_arith)
        requires
            p == 0x2000000000000,
    ;
    let p: int = pow2(47) as int;
    assert(0x14000000000000int / p == 40) by (nonlinear_arith)
        requires
            p == 0x800000000000,
    ;
}

/// Windows that open and close: quick, with a slight bounce. The stiffness is
/// 400, the damping 30 and the mass 1.
pub fn default_window() -> (r: AnimationCurve)
    ensures
        r == (AnimationCurve::Spring {
            stiffness: Double { bits: 0x4079_0000_0000_0000 },
            damping: Double { bits: 0x403e_0000_0000_0000 },
            mass: Double { bits: 0x3ff0_0000_0000_0000 },
        }),
        !damped(r),
{
    proof {
        lemma_whole_numbers();
    }
    AnimationCurve::Spring {
        stiffness: Double { bits: 0x4079_0000_0000_0000 },
        damping: Double { bits: 0x403e_0000_0000_0000 },
        mass: Double { bits: 0x3ff0_0000_0000_0000 },
    }
}

/// Switching between workspaces: a softer spring. The stiffness is 250, the damping
/// 25 and the mass 1.
pub fn workspace_switch() -> (r: AnimationCurve)
    ensures
        r == (AnimationCurve::Spring {
            stiffness: Double { bits: 0x406f_4000_0000_0000 },
            damping: Double { bits: 0x4039_0000_0000_0000 },
            mass: Double { bits: 0x3ff0_0000_0000_0000 },
        }),
{
    AnimationCurve::Spring {
        stiffness: Double { bits: 0x406f_4000_0000_0000 },
        damping: Double { bits: 0x4039_0000_0000_0000 },
        mass: Double { bits: 0x3ff0_0000_0000_0000 },
    }
}

/// A clear bounce, for dragging and resizing. The stiffness is 300, the damping 15 and
/// the mass 1.
pub fn bouncy() -> (r: AnimationCurve)
    ensures
        r == (AnimationCurve::Spring {
            stiffness: Double { bits: 0x4072_c000_0000_0000 },
            damping: Double { bits: 0x402e_0000_0000_0000 },
            mass: Double { bits: 0x3ff0_0000_0000_0000 },
        }),
        !damped(r),
{
    proof {
        lemma_whole_numbers();
    }
    AnimationCurve::Spring {
        stiffness: Double { bits: 0x4072_c000_0000_0000 },
        damping: Double { bits: 0x402e_0000_0000_0000 },
        mass: Double { bits: 0x3ff0_0000_0000_0000 },
    }
}

/// No bounce, where overshooting is unwanted. The stiffness is 400, the damping 40
/// and the mass 1: the square of the damping is four times the stiffness times the
/// mass, which is critical damping.
pub fn smooth() -> (r: AnimationCurve)
    ensures
        r == (AnimationCurve::Spring {
            stiffness: Double { bits: 0x4079_0000_0000_0000 },
            damping: Double { bits: 0x4044_0000_0000_0000 },
            mass: Double { bits: 0x3ff0_0000_0000_0000 },
        }),
        damped(r),
{
    proof {
        lemma_whole_numbers();
    }
    AnimationCurve::Spring {
        stiffness: Double { bits: 0x4079_0000_0000_0000 },
        damping: Double { bits: 0x4044_0000_0000_0000 },
        mass: Double { bits: 0x3ff0_0000_0000_0000 },
    }
}

} // verus!
