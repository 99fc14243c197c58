//! The boot invocation and its outcome.
//!
//! `boot_go` is the single entry point: it binds every device of the set into
//! the registry, builds a fresh simulation context from the caller's fault
//! budget, runs the loader once, releases every binding again whatever way
//! the run ended, writes the spent budget back, and classifies the result.

use crate::context::SimContext;
use crate::flash::SimMultiFlash;
use crate::loader::{
    apply_steps, assert_count, executed, flash_ops, is_flash_op, lemma_apply_steps_preserves,
    lemma_apply_take_one_more, lemma_counts_prefix, lemma_counts_take_one_more,
    lemma_executed_all, lemma_executed_cut, run_interrupted, script_wf, step_wf, AreaDesc,
    BootRsp, LoaderScript, LoaderStep,
};
use crate::registry::FlashRegistry;
use vstd::prelude::*;

verus! {

/// What one boot invocation came to.
pub enum BootGoResult {
    /// The run was forcibly interrupted by an exhausted fault budget.  It
    /// carries no result code, no response, and no assertion tally: the
    /// interruption discards the final accounting.
    Stopped,
    /// The loader ran to completion.
    Normal {
        /// The loader's result code; zero means success.
        result: i32,
        /// Assertion failures tallied during the run.
        asserts: u8,
        /// The response the loader filled in.
        resp: BootRsp,
    },
}

impl BootGoResult {
    /// Was this run interrupted?
    pub open spec fn spec_interrupted(&self) -> bool {
        self is Stopped
    }

    /// Did the loader complete with result code zero?
    pub open spec fn spec_success(&self) -> bool {
        self matches BootGoResult::Normal { result, .. } && result == 0
    }

    /// Did the loader complete with result code zero and no assertions?
    pub open spec fn spec_success_no_asserts(&self) -> bool {
        self matches BootGoResult::Normal { result, asserts, .. } && result == 0 && asserts == 0
    }

    /// The assertion tally this outcome reports: the run's tally when it
    /// completed, zero when it was interrupted.
    pub open spec fn spec_asserts(&self) -> u8 {
        match self {
            BootGoResult::Stopped => 0,
            BootGoResult::Normal { asserts, .. } => *asserts,
        }
    }

    /// Was this run interrupted?
    pub fn interrupted(&self) -> (r: bool)
        ensures
            r == self.spec_interrupted(),
    {
        matches!(self, BootGoResult::Stopped)
    }

    /// Was this boot run successful (result code zero)?
    pub fn success(&self) -> (r: bool)
        ensures
            r == self.spec_success(),
    {
        match self {
            BootGoResult::Normal { result, .. } => *result == 0,
            _ => false,
        }
    }

    /// Successful, and with no assertion failures either.
    pub fn success_no_asserts(&self) -> (r: bool)
        ensures
            r == self.spec_success_no_asserts(),
    {
        match self {
            BootGoResult::Normal { result, asserts, .. } => *result == 0 && *asserts == 0,
            _ => false,
        }
    }

    /// The assertion tally.  An interrupted run reports none.
    pub fn asserts(&self) -> (r: u8)
        ensures
            r == self.spec_asserts(),
    {
        match self {
            BootGoResult::Normal { asserts, .. } => *asserts,
            _ => 0,
        }
    }

    /// The response the loader filled in, when it ran to completion.
    pub fn resp(&self) -> (r: Option<&BootRsp>)
        ensures
            match self {
                BootGoResult::Normal { resp, .. } => r == Some(resp),
                BootGoResult::Stopped => r is None,
            },
    {
        match self {
            BootGoResult::Normal { resp, .. } => Some(resp),
            _ => None,
        }
    }

    /// Law: `success_no_asserts` holds exactly when `success` holds and the
    /// reported assertion tally is zero.
    pub proof fn lemma_success_no_asserts_characterised(&self)
        ensures
            self.spec_success_no_asserts() <==> self.spec_success() && self.spec_asserts() == 0,
    {
    }

    /// Law: an interrupted outcome reports a zero assertion tally, whatever
    /// tally the run had accumulated before the interruption fired.
    pub proof fn lemma_interrupted_reports_no_asserts(&self)
        ensures
            self.spec_interrupted() ==> self.spec_asserts() == 0,
    {
    }
}

/// The flash-operation budget an invocation runs under: the caller's counter
/// when one was supplied, otherwise enough for the whole script.
pub open spec fn spec_budget(counter: Option<i32>, steps: Seq<LoaderStep>) -> int {
    match counter {
        Some(c) => c as int,
        None => flash_ops(steps) as int,
    }
}

/// `ids` lists the identifier `id`.
spec fn has_id(ids: Seq<u8>, id: u8) -> bool {
    exists|j: int| 0 <= j < ids.len() && ids[j] == id
}

/// Some pair of `ps` carries the identifier `id`.
spec fn pairs_have(ps: Seq<(u8, crate::flash::SimFlash)>, id: u8) -> bool {
    exists|i: int| 0 <= i < ps.len() && (#[trigger] ps[i]).0 == id
}

/// Run one boot invocation.
///
/// Every device of `multiflash` is bound into `registry` for the duration of
/// the call and released again on every exit path, interrupted or not; the
/// loader runs once under a fresh simulation context built from `*counter`
/// and `catch_asserts`; the budget left (or reached when the forced
/// interruption fired) is written back through `counter`; and the raw result
/// is classified into a `BootGoResult`.
///
/// `areadesc` is the loader's read-only input: the invocation only carries
/// it to the call and never reads or mutates it.  A scripted loader has its
/// behaviour fixed in `script`, which plays the part of the opaque call into
/// the subject under test.
///
/// A call with assertion interception disabled whose executed steps raise an
/// assertion failure would be fatal to the harness rather than produce an
/// outcome, so such calls are excluded here.  The assertion tally is a byte,
/// as the loader interface defines it, so the script may raise at most 255.
#[verifier::loop_isolation(false)]
pub fn boot_go(
    registry: &mut FlashRegistry,
    multiflash: &mut SimMultiFlash,
    areadesc: &AreaDesc,
    script: &LoaderScript,
    counter: &mut Option<i32>,
    catch_asserts: bool,
) -> (r: BootGoResult)
    requires
        old(registry).wf(),
        old(multiflash).wf(),
        forall|id: u8|
            old(multiflash)@.dom().contains(id) ==> old(registry)@[id as int] is None,
        script_wf(script.steps@, old(multiflash)@),
        (*old(counter)) matches Some(c) ==> c >= 0,
        assert_count(script.steps@) <= 255,
        !catch_asserts ==> assert_count(
            executed(script.steps@, spec_budget(*old(counter), script.steps@)),
        ) == 0,
    ensures
        final(registry).wf(),
        final(multiflash).wf(),
        final(registry)@ == old(registry)@,
        forall|id: u8|
            old(multiflash)@.dom().contains(id) ==> final(registry)@[id as int] is None,
        final(multiflash)@ == apply_steps(
            old(multiflash)@,
            executed(script.steps@, spec_budget(*old(counter), script.steps@)),
        ),
        r.spec_interrupted() == ((*old(counter)) matches Some(c) && run_interrupted(
            script.steps@,
            c as int,
        )),
        !r.spec_interrupted() ==> (r matches BootGoResult::Normal { result, asserts, resp }
            && result == script.result && asserts as nat == assert_count(script.steps@)
            && resp.flash_dev_id == script.resp.flash_dev_id && resp.image_off
            == script.resp.image_off && resp.br_hdr@ == script.resp.br_hdr@),
        (*old(counter)) is None ==> (*final(counter)) is None,
        (*old(counter)) matches Some(c) ==> (*final(counter)) == Some(
            (if run_interrupted(script.steps@, c as int) {
                0int
            } else {
                c - flash_ops(script.steps@)
            }) as i32,
        ),
{
    let ghost mf0 = multiflash@;
    let ghost reg0 = registry@;
    let ghost steps = script.steps@;
    let ghost active = (*counter) is Some;
    let ghost c0: int = match *counter {
        Some(c) => c as int,
        None => 0,
    };
    let ghost b: int = spec_budget(*counter, steps);

    // Bind every device of the set into the registry.
    let mut pairs = multiflash.take_all();
    let mut bound: Vec<u8> = Vec::new();
    while pairs.len() > 0
        invariant
            registry.wf(),
            forall|x: int, y: int| 0 <= x < y < pairs@.len() ==> pairs@[x].0 != pairs@[y].0,
            forall|x: int| #![trigger pairs@[x]]
                0 <= x < pairs@.len() ==> mf0.dom().contains(pairs@[x].0) && pairs@[x].1@
                    == mf0[pairs@[x].0],
            forall|x: int, y: int|
                0 <= x < y < bound@.len() ==> bound@[x] != bound@[y],
            forall|y: int| 0 <= y < bound@.len() ==> mf0.dom().contains(#[trigger] bound@[y]),
            forall|x: int, y: int|
                0 <= x < pairs@.len() && 0 <= y < bound@.len() ==> (#[trigger] pairs@[x]).0 != (
                #[trigger] bound@[y]),
            forall|id: u8|
                mf0.dom().contains(id) ==> pairs_have(pairs@, id) || has_id(bound@, id),
            forall|y: int|
                0 <= y < bound@.len() ==> registry@[#[trigger] bound@[y] as int] == Some(
                    mf0[bound@[y]],
                ),
            forall|s: int|
                0 <= s < 256 && !has_id(bound@, s as u8) ==> registry@[s] == reg0[s],
        decreases pairs@.len(),
    {
        let ghost pairs_prev = pairs@;
        let ghost bound_prev = bound@;
        let p = pairs.pop().unwrap();
        let id = p.0;
        proof {
            assert(pairs_prev[pairs_prev.len() - 1] == p);
            assert(mf0.dom().contains(id));
            assert(!has_id(bound_prev, id));
            assert(registry@[id as int] == reg0[id as int]);
        }
        registry.bind(id, p.1);
        bound.push(id);
        proof {
            assert forall|id2: u8| mf0.dom().contains(id2) implies pairs_have(pairs@, id2)
                || has_id(bound@, id2) by {
                if pairs_have(pairs_prev, id2) {
                    let k = choose|k: int|
                        0 <= k < pairs_prev.len() && (#[trigger] pairs_prev[k]).0 == id2;
                    if k < pairs_prev.len() - 1 {
                        assert((pairs@[k]).0 == id2);
                    } else {
                        assert(bound@[bound@.len() - 1] == id2);
                    }
                } else {
                    let j = choose|j: int| 0 <= j < bound_prev.len() && bound_prev[j] == id2;
                    assert(bound@[j] == id2);
                }
            }
            assert forall|s: int| 0 <= s < 256 && !has_id(bound@, s as u8) implies registry@[s]
                == reg0[s] by {
                assert(!has_id(bound_prev, s as u8));
                assert(s != id as int);
            }
        }
    }

    // Run the loader under a fresh context.
    let start_budget: Option<i32> = *counter;
    let mut ctx = SimContext::new(start_budget, catch_asserts);
    let mut i: usize = 0;
    let mut stopped = false;
    while i < script.steps.len() && !stopped
        invariant
            i <= steps.len(),
            registry.wf(),
            ctx.wf(),
            ctx.budget_active == active,
            ctx.catch_asserts == catch_asserts,
            ctx.interrupted == stopped,
            ctx.assert_count as nat == assert_count(steps.take(i as int)),
            active ==> ctx.remaining as int == c0 - flash_ops(steps.take(i as int)),
            flash_ops(steps.take(i as int)) <= b,
            stopped ==> active && i < steps.len() && is_flash_op(steps[i as int]) && flash_ops(
                steps.take(i as int),
            ) == c0,
            forall|id: u8| #[trigger]
                mf0.dom().contains(id) ==> registry@[id as int] == Some(
                    apply_steps(mf0, steps.take(i as int))[id],
                ),
            forall|s: int|
                0 <= s < 256 && !mf0.dom().contains(s as u8) ==> registry@[s] == reg0[s],
        decreases steps.len() - i, (if stopped {
            0int
        } else {
            1int
        }),
    {
        let ghost cur = apply_steps(mf0, steps.take(i as int));
        proof {
            assert forall|k: int| 0 <= k < steps.take(i as int).len() implies step_wf(
                #[trigger] steps.take(i as int)[k],
                mf0,
            ) by {
                assert(step_wf(steps[k], mf0));
            }
            lemma_apply_steps_preserves(mf0, steps.take(i as int));
            assert(step_wf(steps[i as int], mf0));
            lemma_counts_take_one_more(steps, i as int);
            lemma_counts_prefix(steps, i as int + 1);
            lemma_apply_take_one_more(mf0, steps, i as int);
        }
        let step = &script.steps[i];
        match step {
            LoaderStep::Write { dev_id, offset, data } => {
                if ctx.note_flash_op() {
                    let mut f = registry.unbind(*dev_id);
                    proof {
                        assert(f@ == cur[*dev_id]);
                        assert(cur[*dev_id].len() == mf0[*dev_id].len());
                    }
                    f.write(*offset, data);
                    registry.bind(*dev_id, f);
                    i += 1;
                } else {
                    stopped = true;
                }
            },
            LoaderStep::Erase { dev_id, offset, len } => {
                if ctx.note_flash_op() {
                    let mut f = registry.unbind(*dev_id);
                    proof {
                        assert(f@ == cur[*dev_id]);
                        assert(cur[*dev_id].len() == mf0[*dev_id].len());
                    }
                    f.erase(*offset, *len);
                    registry.bind(*dev_id, f);
                    i += 1;
                } else {
                    stopped = true;
                }
            },
            LoaderStep::Assert => {
                ctx.note_assert();
                i += 1;
            },
        }
    }

    // The prefix that ran is exactly what the budget admits.
    let ghost cur = apply_steps(mf0, steps.take(i as int));
    proof {
        if stopped {
            lemma_counts_take_one_more(steps, i as int);
            lemma_counts_prefix(steps, i as int + 1);
            assert(run_interrupted(steps, c0));
            lemma_executed_cut(steps, c0, i as int);
        } else {
            assert(steps.take(steps.len() as int) =~= steps);
            lemma_executed_all(steps, b);
        }
        assert(apply_steps(mf0, executed(steps, b)) == cur);
        assert forall|k: int| 0 <= k < steps.take(i as int).len() implies step_wf(
            #[trigger] steps.take(i as int)[k],
            mf0,
        ) by {
            assert(step_wf(steps[k], mf0));
        }
        lemma_apply_steps_preserves(mf0, steps.take(i as int));
    }

    // Release every binding, interrupted or not, and hand the devices back.
    while bound.len() > 0
        invariant
            registry.wf(),
            multiflash.wf(),
            forall|x: int, y: int| 0 <= x < y < bound@.len() ==> bound@[x] != bound@[y],
            forall|y: int| 0 <= y < bound@.len() ==> mf0.dom().contains(#[trigger] bound@[y]),
            forall|id: u8|
                mf0.dom().contains(id) ==> has_id(bound@, id) || multiflash@.dom().contains(id),
            forall|id: u8| #[trigger]
                multiflash@.dom().contains(id) ==> mf0.dom().contains(id) && !has_id(bound@, id)
                    && multiflash@[id] == cur[id],
            forall|y: int|
                0 <= y < bound@.len() ==> registry@[#[trigger] bound@[y] as int] == Some(
                    cur[bound@[y]],
                ),
            forall|s: int|
                0 <= s < 256 && mf0.dom().contains(s as u8) && !has_id(bound@, s as u8)
                    ==> registry@[s] is None,
            forall|s: int|
                0 <= s < 256 && !mf0.dom().contains(s as u8) ==> registry@[s] == reg0[s],
        decreases bound@.len(),
    {
        let ghost bound_prev = bound@;
        let id = bound.pop().unwrap();
        proof {
            assert(bound_prev[bound_prev.len() - 1] == id);
            assert(registry@[id as int] == Some(cur[id]));
            assert(!multiflash@.dom().contains(id));
        }
        let f = registry.unbind(id);
        multiflash.insert(id, f);
        proof {
            assert forall|id2: u8| mf0.dom().contains(id2) implies has_id(bound@, id2)
                || multiflash@.dom().contains(id2) by {
                if has_id(bound_prev, id2) {
                    let j = choose|j: int| 0 <= j < bound_prev.len() && bound_prev[j] == id2;
                    if j < bound_prev.len() - 1 {
                        assert(bound@[j] == id2);
                    }
                }
            }
            assert forall|s: int|
                0 <= s < 256 && mf0.dom().contains(s as u8) && !has_id(bound@, s as u8)
                implies registry@[s] is None by {
                if s != id as int {
                    assert(!has_id(bound_prev, s as u8));
                }
            }
        }
    }
    proof {
        assert(multiflash@ =~= cur);
        assert(registry@ =~= reg0);
    }

    // Hand the budget that is left back to the caller.
    match start_budget {
        Some(_) => {
            *counter = Some(ctx.remaining);
        },
        None => {},
    }

    // Classify the raw result.  The interruption flag is the discriminant:
    // no result code, however unlikely, is overloaded as a sentinel.
    if stopped {
        BootGoResult::Stopped
    } else {
        proof {
            assert(steps.take(i as int) =~= steps);
        }
        BootGoResult::Normal {
            result: script.result,
            asserts: ctx.assert_count,
            resp: script.resp.duplicate(),
        }
    }
}

/// Law: the interruption threshold is monotonic in the starting budget: a
/// budget that lets the run complete keeps doing so when raised, and any
/// budget no smaller than the script's flash-operation count completes.
pub proof fn lemma_budget_monotonic(steps: Seq<LoaderStep>, b1: int, b2: int)
    requires
        b1 <= b2,
    ensures
        run_interrupted(steps, b2) ==> run_interrupted(steps, b1),
        flash_ops(steps) <= b1 ==> !run_interrupted(steps, b1),
{
}

} // verus!
