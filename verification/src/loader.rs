//! The subject under test, and the model of what running it does.
//!
//! The loader is opaque to the invocation: all the harness sees of it is the
//! sequence of flash operations and assertion failures it produces, the
//! result code it finishes with, and the boot response it fills in.  A
//! `LoaderScript` records that behaviour for one deterministic scenario; the
//! spec functions here say exactly which prefix of it runs under a given
//! fault budget and what the flash devices hold afterwards.

use crate::flash::{erase_spec, write_spec};
use vstd::prelude::*;

verus! {

/// One event the loader produces while it runs.
pub enum LoaderStep {
    /// Write `data` to device `dev_id` at byte offset `offset`.  Counts
    /// against the fault budget.
    Write { dev_id: u8, offset: usize, data: Vec<u8> },
    /// Erase `len` bytes of device `dev_id` at byte offset `offset`.  Counts
    /// against the fault budget.
    Erase { dev_id: u8, offset: usize, len: usize },
    /// An internal assertion failure; tallied when interception is enabled.
    Assert,
}

/// The image the loader selected to boot.  The header bytes are an owned
/// copy: they stay valid however the caller mutates flash afterwards.
pub struct BootRsp {
    /// Device holding the selected image.
    pub flash_dev_id: u8,
    /// Byte offset of the selected image within that device.
    pub image_off: u32,
    /// Copy of the image header at that offset.
    pub br_hdr: Vec<u8>,
}

impl BootRsp {
    /// An owned copy, byte for byte.
    pub fn duplicate(&self) -> (r: BootRsp)
        ensures
            r.flash_dev_id == self.flash_dev_id,
            r.image_off == self.image_off,
            r.br_hdr@ == self.br_hdr@,
    {
        let mut hdr: Vec<u8> = Vec::new();
        let mut i: usize = 0;
        while i < self.br_hdr.len()
            invariant
                i <= self.br_hdr@.len(),
                hdr@ == self.br_hdr@.take(i as int),
            decreases self.br_hdr@.len() - i,
        {
            hdr.push(self.br_hdr[i]);
            proof {
                assert(hdr@ =~= self.br_hdr@.take(i + 1));
            }
            i += 1;
        }
        proof {
            assert(hdr@ =~= self.br_hdr@);
        }
        BootRsp { flash_dev_id: self.flash_dev_id, image_off: self.image_off, br_hdr: hdr }
    }
}

/// The recorded behaviour of the loader for one deterministic scenario.
pub struct LoaderScript {
    /// The events, in order.
    pub steps: Vec<LoaderStep>,
    /// Result code returned on completion; zero means success.
    pub result: i32,
    /// Response filled in on completion.
    pub resp: BootRsp,
}

/// One read-only flash region the descriptor lays out.
pub struct FlashArea {
    /// Device the area lives on.
    pub flash_id: u8,
    /// Byte offset of the area within the device.
    pub off: u32,
    /// Size of the area in bytes.
    pub size: u32,
}

/// Opaque, read-only layout description consumed by the loader.  The
/// invocation carries it to the call and never reads or mutates it.
pub struct AreaDesc {
    /// The laid-out areas.
    pub areas: Vec<FlashArea>,
}

impl AreaDesc {
    /// An empty layout.
    pub fn new() -> (r: AreaDesc)
        ensures
            r.areas@.len() == 0,
    {
        AreaDesc { areas: Vec::new() }
    }

    /// Append one area.
    pub fn add_flash_area(&mut self, area: FlashArea)
        ensures
            final(self).areas@ == old(self).areas@.push(area),
    {
        self.areas.push(area);
    }
}

/// Does this step consume one unit of the fault budget?
pub open spec fn is_flash_op(s: LoaderStep) -> bool {
    s is Write || s is Erase
}

/// How many flash operations the steps perform.
pub open spec fn flash_ops(steps: Seq<LoaderStep>) -> nat
    decreases steps.len(),
{
    if steps.len() == 0 {
        0
    } else {
        (if is_flash_op(steps[0]) {
            1nat
        } else {
            0nat
        }) + flash_ops(steps.drop_first())
    }
}

/// How many assertion failures the steps raise.
pub open spec fn assert_count(steps: Seq<LoaderStep>) -> nat
    decreases steps.len(),
{
    if steps.len() == 0 {
        0
    } else {
        (if steps[0] is Assert {
            1nat
        } else {
            0nat
        }) + assert_count(steps.drop_first())
    }
}

/// A step stays on a device of the set and inside its bounds.  Flash
/// operations preserve every device's size, so well-formedness against the
/// devices at invocation start carries through the whole run.
pub open spec fn step_wf(s: LoaderStep, mf: Map<u8, Seq<u8>>) -> bool {
    match s {
        LoaderStep::Write { dev_id, offset, data } => mf.dom().contains(dev_id) && offset
            + data@.len() <= mf[dev_id].len(),
        LoaderStep::Erase { dev_id, offset, len } => mf.dom().contains(dev_id) && offset + len
            <= mf[dev_id].len(),
        LoaderStep::Assert => true,
    }
}

/// Every step is well-formed against the device set.
pub open spec fn script_wf(steps: Seq<LoaderStep>, mf: Map<u8, Seq<u8>>) -> bool {
    forall|i: int| 0 <= i < steps.len() ==> step_wf(#[trigger] steps[i], mf)
}

/// The device contents after one step.
pub open spec fn apply_step(mf: Map<u8, Seq<u8>>, s: LoaderStep) -> Map<u8, Seq<u8>> {
    match s {
        LoaderStep::Write { dev_id, offset, data } => mf.insert(
            dev_id,
            write_spec(mf[dev_id], offset as int, data@),
        ),
        LoaderStep::Erase { dev_id, offset, len } => mf.insert(
            dev_id,
            erase_spec(mf[dev_id], offset as int, len as int),
        ),
        LoaderStep::Assert => mf,
    }
}

/// The device contents after a sequence of steps.
pub open spec fn apply_steps(mf: Map<u8, Seq<u8>>, steps: Seq<LoaderStep>) -> Map<u8, Seq<u8>>
    decreases steps.len(),
{
    if steps.len() == 0 {
        mf
    } else {
        apply_steps(apply_step(mf, steps[0]), steps.drop_first())
    }
}

/// The prefix of the steps that actually runs under fault budget `budget`:
/// everything up to, and not including, the first flash operation for which
/// no budget is left.
pub open spec fn executed(steps: Seq<LoaderStep>, budget: int) -> Seq<LoaderStep>
    decreases steps.len(),
{
    if steps.len() == 0 {
        steps
    } else if is_flash_op(steps[0]) {
        if budget <= 0 {
            Seq::empty()
        } else {
            seq![steps[0]] + executed(steps.drop_first(), budget - 1)
        }
    } else {
        seq![steps[0]] + executed(steps.drop_first(), budget)
    }
}

/// Does a run under fault budget `budget` get forcibly interrupted?
pub open spec fn run_interrupted(steps: Seq<LoaderStep>, budget: int) -> bool {
    budget < flash_ops(steps)
}

/// Counting flash operations distributes over concatenation.
pub proof fn lemma_flash_ops_add(a: Seq<LoaderStep>, b: Seq<LoaderStep>)
    ensures
        flash_ops(a + b) == flash_ops(a) + flash_ops(b),
    decreases a.len(),
{
    if a.len() == 0 {
        assert(a + b =~= b);
    } else {
        assert((a + b).drop_first() =~= a.drop_first() + b);
        lemma_flash_ops_add(a.drop_first(), b);
    }
}

/// Counting assertion failures distributes over concatenation.
pub proof fn lemma_assert_count_add(a: Seq<LoaderStep>, b: Seq<LoaderStep>)
    ensures
        assert_count(a + b) == assert_count(a) + assert_count(b),
    decreases a.len(),
{
    if a.len() == 0 {
        assert(a + b =~= b);
    } else {
        assert((a + b).drop_first() =~= a.drop_first() + b);
        lemma_assert_count_add(a.drop_first(), b);
    }
}

/// Flash-operation and assertion counts of a single step.
pub proof fn lemma_counts_one(s: LoaderStep)
    ensures
        flash_ops(seq![s]) == (if is_flash_op(s) {
            1nat
        } else {
            0nat
        }),
        assert_count(seq![s]) == (if s is Assert {
            1nat
        } else {
            0nat
        }),
{
    let one = seq![s];
    assert(one.len() == 1);
    assert(one[0] == s);
    assert(one.drop_first() =~= Seq::<LoaderStep>::empty());
    assert(flash_ops(one.drop_first()) == 0);
    assert(assert_count(one.drop_first()) == 0);
    assert(flash_ops(one) == (if is_flash_op(one[0]) {
        1nat
    } else {
        0nat
    }) + flash_ops(one.drop_first()));
    assert(assert_count(one) == (if one[0] is Assert {
        1nat
    } else {
        0nat
    }) + assert_count(one.drop_first()));
}

/// Extending a prefix by one step adjusts both counts by that step alone.
pub proof fn lemma_counts_take_one_more(steps: Seq<LoaderStep>, i: int)
    requires
        0 <= i < steps.len(),
    ensures
        flash_ops(steps.take(i + 1)) == flash_ops(steps.take(i)) + (if is_flash_op(steps[i]) {
            1nat
        } else {
            0nat
        }),
        assert_count(steps.take(i + 1)) == assert_count(steps.take(i)) + (if steps[i] is Assert {
            1nat
        } else {
            0nat
        }),
{
    assert(steps.take(i + 1) =~= steps.take(i) + seq![steps[i]]);
    lemma_flash_ops_add(steps.take(i), seq![steps[i]]);
    lemma_assert_count_add(steps.take(i), seq![steps[i]]);
    lemma_counts_one(steps[i]);
}

/// A prefix never counts more than the whole.
pub proof fn lemma_counts_prefix(steps: Seq<LoaderStep>, i: int)
    requires
        0 <= i <= steps.len(),
    ensures
        flash_ops(steps.take(i)) <= flash_ops(steps),
        assert_count(steps.take(i)) <= assert_count(steps),
{
    assert(steps =~= steps.take(i) + steps.skip(i));
    lemma_flash_ops_add(steps.take(i), steps.skip(i));
    lemma_assert_count_add(steps.take(i), steps.skip(i));
}

/// Applying steps distributes over concatenation.
pub proof fn lemma_apply_steps_add(mf: Map<u8, Seq<u8>>, a: Seq<LoaderStep>, b: Seq<LoaderStep>)
    ensures
        apply_steps(mf, a + b) == apply_steps(apply_steps(mf, a), b),
    decreases a.len(),
{
    if a.len() == 0 {
        assert(a + b =~= b);
    } else {
        assert((a + b).drop_first() =~= a.drop_first() + b);
        assert((a + b)[0] == a[0]);
        lemma_apply_steps_add(apply_step(mf, a[0]), a.drop_first(), b);
    }
}

/// Steps that stay inside the devices keep every device and its size.
pub proof fn lemma_apply_steps_preserves(mf: Map<u8, Seq<u8>>, steps: Seq<LoaderStep>)
    requires
        script_wf(steps, mf),
    ensures
        apply_steps(mf, steps).dom() == mf.dom(),
        forall|id: u8| #[trigger]
            mf.dom().contains(id) ==> apply_steps(mf, steps)[id].len() == mf[id].len(),
    decreases steps.len(),
{
    if steps.len() > 0 {
        let mf1 = apply_step(mf, steps[0]);
        assert(step_wf(steps[0], mf));
        assert(mf1.dom() =~= mf.dom());
        assert forall|i: int| 0 <= i < steps.drop_first().len() implies step_wf(
            #[trigger] steps.drop_first()[i],
            mf1,
        ) by {
            assert(step_wf(steps[i + 1], mf));
        }
        lemma_apply_steps_preserves(mf1, steps.drop_first());
        assert(apply_steps(mf, steps).dom() =~= mf.dom());
    }
}

/// Applying one more step of a prefix is applying that step to the result.
pub proof fn lemma_apply_take_one_more(mf: Map<u8, Seq<u8>>, steps: Seq<LoaderStep>, i: int)
    requires
        0 <= i < steps.len(),
    ensures
        apply_steps(mf, steps.take(i + 1)) == apply_step(
            apply_steps(mf, steps.take(i)),
            steps[i],
        ),
{
    let one = seq![steps[i]];
    assert(steps.take(i + 1) =~= steps.take(i) + one);
    lemma_apply_steps_add(mf, steps.take(i), one);
    let mid = apply_steps(mf, steps.take(i));
    assert(one.len() == 1);
    assert(one[0] == steps[i]);
    assert(one.drop_first() =~= Seq::<LoaderStep>::empty());
    assert(apply_steps(mid, one) == apply_steps(apply_step(mid, one[0]), one.drop_first()));
    assert(apply_steps(apply_step(mid, one[0]), one.drop_first()) == apply_step(mid, one[0]));
}

/// With the budget covering every flash operation, the whole script runs.
pub proof fn lemma_executed_all(steps: Seq<LoaderStep>, budget: int)
    requires
        flash_ops(steps) <= budget,
    ensures
        executed(steps, budget) == steps,
    decreases steps.len(),
{
    if steps.len() > 0 {
        if is_flash_op(steps[0]) {
            lemma_executed_all(steps.drop_first(), budget - 1);
        } else {
            lemma_executed_all(steps.drop_first(), budget);
        }
        assert(seq![steps[0]] + steps.drop_first() =~= steps);
    }
}

/// When the budget runs out exactly at flash operation `budget + 1`, reached
/// at step `i`, the executed prefix is precisely the steps before `i`.
pub proof fn lemma_executed_cut(steps: Seq<LoaderStep>, budget: int, i: int)
    requires
        0 <= budget,
        0 <= i < steps.len(),
        is_flash_op(steps[i]),
        flash_ops(steps.take(i)) == budget,
    ensures
        executed(steps, budget) == steps.take(i),
    decreases steps.len(),
{
    if i == 0 {
        assert(steps.take(0) =~= Seq::<LoaderStep>::empty());
        assert(flash_ops(steps.take(0)) == 0);
        assert(executed(steps, 0) =~= steps.take(0));
    } else {
        assert(steps.take(i)[0] == steps[0]);
        assert(steps.take(i).drop_first() =~= steps.drop_first().take(i - 1));
        if is_flash_op(steps[0]) {
            assert(flash_ops(steps.take(i)) == 1 + flash_ops(steps.drop_first().take(i - 1)));
            assert(budget >= 1);
            lemma_executed_cut(steps.drop_first(), budget - 1, i - 1);
            assert(seq![steps[0]] + steps.drop_first().take(i - 1) =~= steps.take(i));
        } else {
            lemma_executed_cut(steps.drop_first(), budget, i - 1);
            assert(seq![steps[0]] + steps.drop_first().take(i - 1) =~= steps.take(i));
        }
    }
}

} // verus!
