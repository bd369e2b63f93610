//! Enumeration of the instance modes a font is represented as.

use crate::font::FontHandle;
use vstd::prelude::*;

verus! {

/// How one descriptor represents the font: at its default design
/// coordinates, at one named instance, or as the whole continuous design
/// space.
#[derive(Clone, Copy, Debug, PartialEq, Eq, Structural)]
pub enum InstanceMode {
    Default,
    Named(i32),
    Variable,
}

/// The fixed order of instance modes for one extraction pass: `Default`
/// first, one `Named` per named instance in ascending index order, and
/// `Variable` last, only if the font has at least one variation axis.
pub open spec fn all_instances_spec(font: FontHandle) -> Seq<InstanceMode> {
    seq![InstanceMode::Default] + Seq::new(
        font.instances@.len() as nat,
        |i: int| InstanceMode::Named(i as i32),
    ) + if font.axes@.len() > 0 {
        seq![InstanceMode::Variable]
    } else {
        Seq::empty()
    }
}

/// Produces the instance modes to generate descriptors for, in their
/// fixed order. A font with no variation axes yields exactly `Default`;
/// one with axes and `n` named instances yields `Default`, then
/// `Named(0)` through `Named(n-1)`, then `Variable`.
pub fn all_instances(font: &FontHandle) -> (r: Vec<InstanceMode>)
    requires
        font.wf(),
    ensures
        r@ == all_instances_spec(*font),
        font.axes@.len() == 0 ==> r@ == seq![InstanceMode::Default],
        font.axes@.len() > 0 ==> r@ == seq![InstanceMode::Default] + Seq::new(
            font.instances@.len() as nat,
            |i: int| InstanceMode::Named(i as i32),
        ) + seq![InstanceMode::Variable],
{
    let mut r: Vec<InstanceMode> = Vec::new();
    r.push(InstanceMode::Default);
    proof {
        assert(r@ =~= seq![InstanceMode::Default] + Seq::new(
            0,
            |i: int| InstanceMode::Named(i as i32),
        ));
    }
    let mut i: usize = 0;
    while i < font.instances.len()
        invariant
            0 <= i <= font.instances@.len() <= 0xFFFF,
            r@ == seq![InstanceMode::Default] + Seq::new(
                i as nat,
                |k: int| InstanceMode::Named(k as i32),
            ),
        decreases font.instances@.len() - i,
    {
        r.push(InstanceMode::Named(i as i32));
        proof {
            assert(r@ =~= seq![InstanceMode::Default] + Seq::new(
                (i + 1) as nat,
                |k: int| InstanceMode::Named(k as i32),
            ));
        }
        i = i + 1;
    }
    if font.axes.len() > 0 {
        r.push(InstanceMode::Variable);
        proof {
            assert(r@ =~= all_instances_spec(*font));
        }
    } else {
        proof {
            assert(font.instances@.len() == 0);
            assert(r@ =~= all_instances_spec(*font));
            assert(r@ =~= seq![InstanceMode::Default]);
        }
    }
    r
}

} // verus!
