//! The maintainer's decisions: the proportional CPU controller, the RAM steering
//! with its block pool, and the hot reload of the configuration.

use vstd::prelude::*;
use crate::metrics::{CpuSample, MemInfo};
use crate::config::Config;

verus! {

/// Size of one RAM block, in MiB.
pub const BLOCK_MB: usize = 10;

/// Size of one RAM block, in KiB.
pub const BLOCK_KB: u64 = 10240;

/// Size of one RAM block, in bytes.
pub const BLOCK_BYTES: usize = 10485760;

/// At most this many blocks are added or freed per interval.
pub const MAX_BLOCKS_PER_STEP: usize = 20;

// ---- CPU -------------------------------------------------------------------------

/// `u64::saturating_sub` of two counters.
pub open spec fn counter_delta(from: u64, to: u64) -> int {
    if to >= from { to - from } else { 0 }
}

/// Ticks that passed between the samples.
pub open spec fn ticks(a: CpuSample, b: CpuSample) -> int {
    counter_delta(a.total, b.total)
}

/// 100 times the busy ticks between the samples; the busy percentage is this
/// divided by `ticks(a, b)` (0 when no tick passed).
pub open spec fn busy_hundredths(a: CpuSample, b: CpuSample) -> int {
    100 * (counter_delta(a.total, b.total) - counter_delta(a.idle, b.idle))
}

/// The system-wide CPU usage between the samples is below `min` percent.
pub open spec fn usage_below(a: CpuSample, b: CpuSample, min: u32) -> bool {
    if ticks(a, b) == 0 { 0 < min } else { busy_hundredths(a, b) < min * ticks(a, b) }
}

/// The system-wide CPU usage between the samples is above `max` percent.
pub open spec fn usage_above(a: CpuSample, b: CpuSample, max: u32) -> bool {
    ticks(a, b) > 0 && busy_hundredths(a, b) > max * ticks(a, b)
}

/// `⌈x / y⌉` for `x >= 0` and `y > 0`.
pub open spec fn ceil_div(x: int, y: int) -> int {
    (x + y - 1) / y
}

/// Percentage points by which usage falls short of `min`, rounded up.
pub open spec fn deficit(a: CpuSample, b: CpuSample, min: u32) -> int {
    if ticks(a, b) == 0 { min as int } else { ceil_div(min * ticks(a, b) - busy_hundredths(a, b), ticks(a, b)) }
}

/// Percentage points by which usage exceeds `max`, rounded up.
pub open spec fn excess(a: CpuSample, b: CpuSample, max: u32) -> int {
    ceil_div(busy_hundredths(a, b) - max * ticks(a, b), ticks(a, b))
}

/// One adjustment moves the duty by the gap to the band, but by 5 to 30 points.
pub open spec fn bounded_step(gap: int) -> int {
    if gap < 5 { 5 } else if gap > 30 { 30 } else { gap }
}

/// How one control step changed the load.
#[derive(PartialEq, Eq, Structural, Debug, Clone, Copy)]
pub enum CpuChange {
    /// Usage was below the band: the duty went up.
    Raised,
    /// Usage was above the band: the duty went down.
    Lowered,
    /// Usage was within the band: the duty stayed.
    Within,
}

/// The duty that follows `duty` after measuring usage between `a` and `b`
/// against the band `min..=max`.
pub open spec fn next_duty(duty: int, a: CpuSample, b: CpuSample, min: u32, max: u32) -> int {
    if usage_below(a, b, min) {
        let d = duty + bounded_step(deficit(a, b, min));
        if d < 100 { d } else { 100 }
    } else if usage_above(a, b, max) {
        let d = duty - bounded_step(excess(a, b, max));
        if d > 0 { d } else { 0 }
    } else {
        duty
    }
}

/// The controller keeps the duty within 0..=100, raises it only when usage is below
/// the band, lowers it only when usage is above it, leaves it alone within the
/// band, and moves it by at most 30 points, and by no more than the gap to the band
/// once that gap is 5 points or more.
pub proof fn lemma_cpu_step_bounded(duty: int, a: CpuSample, b: CpuSample, min: u32, max: u32)
    requires
        0 <= duty <= 100,
    ensures
        0 <= next_duty(duty, a, b, min, max) <= 100,
        usage_below(a, b, min) ==> duty <= next_duty(duty, a, b, min, max) <= duty + 30,
        usage_below(a, b, min) && deficit(a, b, min) >= 5 ==> next_duty(duty, a, b, min, max) <= duty
            + deficit(a, b, min),
        !usage_below(a, b, min) && usage_above(a, b, max) ==> duty - 30 <= next_duty(duty, a, b, min, max)
            <= duty,
        !usage_below(a, b, min) && usage_above(a, b, max) && excess(a, b, max) >= 5 ==> duty - excess(a, b, max)
            <= next_duty(duty, a, b, min, max),
        !usage_below(a, b, min) && !usage_above(a, b, max) ==> next_duty(duty, a, b, min, max) == duty,
{
}

/// The controller, in the arithmetic of the two samples: with `t` ticks and `busy`
/// hundredths of busy ticks between them, usage above the band (and not below it)
/// lowers the duty by the excess in points rounded up, but by at least 5 and at most
/// 30, never below 0; usage below the band raises it in the same way by the deficit,
/// never above 100; with no tick passed usage counts as 0; within the band the duty
/// stays. So a lowering step always takes at least 5 points off (or reaches 0), and
/// a raising step adds at least 5 (or reaches 100).
pub proof fn lemma_cpu_step_law(duty: int, a: CpuSample, b: CpuSample, min: u32, max: u32)
    requires
        0 <= duty <= 100,
    ensures
        ({
            let t: int = if b.total >= a.total { b.total - a.total } else { 0 };
            let idle: int = if b.idle >= a.idle { b.idle - a.idle } else { 0 };
            let busy: int = 100 * (t - idle);
            let nd = next_duty(duty, a, b, min, max);
            &&& (t > 0 && busy >= min * t && busy > max * t) ==> ({
                let q = (busy - max * t + t - 1) / t;
                let step = if q < 5 { 5 } else if q > 30 { 30 } else { q };
                &&& nd == (if duty - step > 0 { duty - step } else { 0 })
                &&& nd <= (if duty - 5 > 0 { duty - 5 } else { 0 })
                &&& nd >= duty - 30
            })
            &&& (t > 0 && busy < min * t) ==> ({
                let q = (min * t - busy + t - 1) / t;
                let step = if q < 5 { 5 } else if q > 30 { 30 } else { q };
                &&& nd == (if duty + step < 100 { duty + step } else { 100 })
                &&& nd >= (if duty + 5 < 100 { duty + 5 } else { 100 })
                &&& nd <= duty + 30
            })
            &&& (t == 0 && min > 0) ==> ({
                let step: int = if min < 5 { 5 } else if min > 30 { 30 } else { min as int };
                nd == (if duty + step < 100 { duty + step } else { 100 })
            })
            &&& ((t == 0 && min == 0) || (t > 0 && min * t <= busy <= max * t)) ==> nd == duty
        }),
{
    let t: int = if b.total >= a.total { b.total - a.total } else { 0 };
    assert(ticks(a, b) == t);
    if t > 0 {
        let idle: int = if b.idle >= a.idle { b.idle - a.idle } else { 0 };
        assert(busy_hundredths(a, b) == 100 * (t - idle));
    }
}

fn ceil_step(x: i128, y: i128) -> (r: usize)
    requires
        x > 0,
        y > 0,
        x < 0x10_0000_0000_0000_0000_0000_0000,
        y < 0x10_0000_0000_0000_0000_0000_0000,
    ensures
        r == bounded_step(ceil_div(x as int, y as int)),
{
    let q = (x + y - 1) / y;
    if q < 5 {
        5
    } else if q > 30 {
        30
    } else {
        q as usize
    }
}

/// One step of the proportional controller: compares the usage measured between
/// two samples with the band `min..=max` and moves the workers' duty toward it.
/// The step is bounded by the gap, so one adjustment can at most reach the band
/// (plus measurement lag), and never less than 5 or more than 30 points.
pub fn cpu_step(duty: usize, a: CpuSample, b: CpuSample, min: u32, max: u32) -> (r: (usize, CpuChange))
    requires
        duty <= 100,
    ensures
        r.0 == next_duty(duty as int, a, b, min, max),
        r.0 <= 100,
        r.1 == (if usage_below(a, b, min) {
            CpuChange::Raised
        } else if usage_above(a, b, max) {
            CpuChange::Lowered
        } else {
            CpuChange::Within
        }),
        ({
            let t: int = if b.total >= a.total { b.total - a.total } else { 0 };
            let idle: int = if b.idle >= a.idle { b.idle - a.idle } else { 0 };
            let busy: int = 100 * (t - idle);
            &&& (t > 0 && busy >= min * t && busy > max * t) ==> ({
                let q = (busy - max * t + t - 1) / t;
                let step = if q < 5 { 5 } else if q > 30 { 30 } else { q };
                &&& r.0 == (if duty - step > 0 { duty - step } else { 0 })
                &&& r.0 <= (if duty - 5 > 0 { duty - 5 } else { 0 })
                &&& r.1 == CpuChange::Lowered
            })
            &&& (t > 0 && busy < min * t) ==> ({
                let q = (min * t - busy + t - 1) / t;
                let step = if q < 5 { 5 } else if q > 30 { 30 } else { q };
                &&& r.0 == (if duty + step < 100 { duty + step } else { 100 })
                &&& r.0 >= (if duty + 5 < 100 { duty + 5 } else { 100 })
                &&& r.1 == CpuChange::Raised
            })
            &&& (t == 0 && min > 0) ==> r.1 == CpuChange::Raised && r.0 >= (if duty + 5 < 100 { duty + 5 } else { 100 })
            &&& ((t == 0 && min == 0) || (t > 0 && min * t <= busy <= max * t)) ==> r.0 == duty && r.1 == CpuChange::Within
        }),
{
    proof { lemma_cpu_step_law(duty as int, a, b, min, max); }
    let dt: u64 = b.total.saturating_sub(a.total);
    let di: u64 = b.idle.saturating_sub(a.idle);
    let busy: i128 = 100 * (dt as i128 - di as i128);
    let ghost t = ticks(a, b);
    assert(dt as int == t);
    assert(busy as int == busy_hundredths(a, b));
    if dt == 0 {
        if 0 < min {
            let step = if min < 5 { 5 } else if min > 30 { 30 } else { min as usize };
            let d = duty + step;
            return (if d < 100 { d } else { 100 }, CpuChange::Raised);
        }
        return (duty, CpuChange::Within);
    }
    assert((min as int) * (dt as int) < 0x1_0000_0000_0000_0000_0000_0000) by (nonlinear_arith)
        requires min <= u32::MAX, dt <= u64::MAX;
    assert((max as int) * (dt as int) < 0x1_0000_0000_0000_0000_0000_0000) by (nonlinear_arith)
        requires max <= u32::MAX, dt <= u64::MAX;
    assert((min as int) * (dt as int) >= 0) by (nonlinear_arith)
        requires min >= 0, dt >= 0;
    assert((max as int) * (dt as int) >= 0) by (nonlinear_arith)
        requires max >= 0, dt >= 0;
    let lo: i128 = min as i128 * dt as i128;
    let hi: i128 = max as i128 * dt as i128;
    assert(hi >= 0 && lo >= 0);
    assert(-100 * (u64::MAX as int) <= busy <= 100 * (u64::MAX as int));
    if busy < lo {
        let step = ceil_step(lo - busy, dt as i128);
        let d = duty + step;
        (if d < 100 { d } else { 100 }, CpuChange::Raised)
    } else if busy > hi {
        let step = ceil_step(busy - hi, dt as i128);
        (duty.saturating_sub(step), CpuChange::Lowered)
    } else {
        (duty, CpuChange::Within)
    }
}


// ---- RAM -------------------------------------------------------------------------

/// Where a batch of RAM adjustments stands: blocks are either only added or only
/// freed within one interval (no flip-flop).
#[derive(PartialEq, Eq, Structural, Debug, Clone, Copy)]
pub enum RamPhase {
    /// Nothing done yet.
    Idle,
    /// Blocks were added.
    Pushed,
    /// Blocks were freed.
    Popped,
}

/// One batch of RAM adjustments within an interval.
#[derive(Debug, Clone, Copy)]
pub struct RamBatch {
    /// Blocks added or freed so far.
    pub steps: usize,
    pub phase: RamPhase,
}

/// What to do next to steer system RAM usage.
#[derive(PartialEq, Eq, Structural, Debug, Clone, Copy)]
pub enum RamAction {
    /// Allocate one more block.
    Push,
    /// Free one block.
    Pop,
    /// End the batch.
    Stop,
}

/// Target usage in KiB: `ram_target` percent of total memory.
pub open spec fn target_kb(m: MemInfo, ram_target: u32) -> int {
    m.total_kb * ram_target / 100
}

/// System-wide used memory in KiB (`total - available`, at least 0).
pub open spec fn used_kb(m: MemInfo) -> int {
    counter_delta(m.avail_kb, m.total_kb)
}

/// The figures of `m` can be compared without leaving `u64`.
pub open spec fn ram_figures_fit(m: MemInfo, ram_target: u32) -> bool {
    &&& m.total_kb * ram_target <= u64::MAX
    &&& used_kb(m) + BLOCK_KB <= u64::MAX
    &&& target_kb(m, ram_target) + BLOCK_KB <= u64::MAX
}

/// Whether the figures of `m` can be compared within `u64`, as `ram_step` needs.
pub fn ram_figures_check(m: MemInfo, ram_target: u32) -> (r: bool)
    ensures
        r == ram_figures_fit(m, ram_target),
{
    assert((m.total_kb as int) * (ram_target as int) <= (u64::MAX as int) * (u32::MAX as int)) by (nonlinear_arith)
        requires m.total_kb <= u64::MAX, ram_target <= u32::MAX;
    assert((u64::MAX as int) * (u32::MAX as int) < u128::MAX);
    assert((m.total_kb as int) * (ram_target as int) >= 0) by (nonlinear_arith)
        requires m.total_kb >= 0, ram_target >= 0;
    let prod: u128 = m.total_kb as u128 * ram_target as u128;
    if prod > u64::MAX as u128 {
        return false;
    }
    let target = (prod as u64) / 100;
    let used = m.total_kb.saturating_sub(m.avail_kb);
    used <= u64::MAX - BLOCK_KB && target <= u64::MAX - BLOCK_KB
}

/// The next RAM action: add while system use is at least a block below the target,
/// free while it is more than a block above it (and a block is held), one block at
/// a time, at most `MAX_BLOCKS_PER_STEP` per batch, never both in one batch.
pub open spec fn ram_decision(batch: RamBatch, mem: Option<MemInfo>, ram_target: u32, holding: bool) -> RamAction {
    if batch.steps >= MAX_BLOCKS_PER_STEP {
        RamAction::Stop
    } else {
        match mem {
            None => RamAction::Stop,
            Some(m) => if used_kb(m) + BLOCK_KB <= target_kb(m, ram_target) {
                if batch.phase == RamPhase::Popped { RamAction::Stop } else { RamAction::Push }
            } else if used_kb(m) > target_kb(m, ram_target) + BLOCK_KB && holding {
                if batch.phase == RamPhase::Pushed { RamAction::Stop } else { RamAction::Pop }
            } else {
                RamAction::Stop
            },
        }
    }
}

/// A batch with nothing done.
pub fn ram_batch() -> (r: RamBatch)
    ensures
        r.steps == 0,
        r.phase == RamPhase::Idle,
{
    RamBatch { steps: 0, phase: RamPhase::Idle }
}

/// Decides the next RAM action from the latest memory figures (`None` when they
/// cannot be read) and records it in the batch.
pub fn ram_step(batch: &mut RamBatch, mem: Option<MemInfo>, ram_target: u32, holding: bool) -> (r: RamAction)
    requires
        old(batch).steps <= MAX_BLOCKS_PER_STEP,
        mem matches Some(m) ==> ram_figures_fit(m, ram_target),
    ensures
        r == ram_decision(*old(batch), mem, ram_target, holding),
        r == RamAction::Push ==> final(batch).steps == old(batch).steps + 1 && final(batch).phase == RamPhase::Pushed,
        r == RamAction::Pop ==> final(batch).steps == old(batch).steps + 1 && final(batch).phase == RamPhase::Popped,
        r == RamAction::Stop ==> *final(batch) == *old(batch),
        final(batch).steps <= MAX_BLOCKS_PER_STEP,
        old(batch).phase == RamPhase::Pushed ==> r != RamAction::Pop,
        old(batch).phase == RamPhase::Popped ==> r != RamAction::Push,
{
    if batch.steps >= MAX_BLOCKS_PER_STEP {
        return RamAction::Stop;
    }
    let m = match mem {
        Some(m) => m,
        None => return RamAction::Stop,
    };
    let target = m.total_kb * (ram_target as u64) / 100;
    let used = m.total_kb.saturating_sub(m.avail_kb);
    if used + BLOCK_KB <= target {
        if batch.phase == RamPhase::Popped {
            return RamAction::Stop;
        }
        batch.steps = batch.steps + 1;
        batch.phase = RamPhase::Pushed;
        RamAction::Push
    } else if used > target + BLOCK_KB && holding {
        if batch.phase == RamPhase::Pushed {
            return RamAction::Stop;
        }
        batch.steps = batch.steps + 1;
        batch.phase = RamPhase::Popped;
        RamAction::Pop
    } else {
        RamAction::Stop
    }
}

/// Most blocks the address space can hold.
pub const MAX_BLOCKS: usize = usize::MAX / BLOCK_BYTES;

/// `std::hint::black_box`: returns the block unchanged while keeping the optimizer
/// from dropping the page writes made to it.
#[verifier::external_body]
fn keep_block(v: Vec<u8>) -> (r: Vec<u8>)
    ensures
        r@ == v@,
{
    std::hint::black_box(v)
}

/// A pool of 10 MiB blocks. Every page of a block is written when it is
/// allocated, so the memory is really committed, and blocks are large enough for
/// the allocator to return them to the kernel when freed.
pub struct RamPump {
    blocks: Vec<Vec<u8>>,
}

impl RamPump {
    #[verifier::type_invariant]
    spec fn inv(self) -> bool {
        &&& self.blocks.len() <= MAX_BLOCKS
        &&& forall|i: int| 0 <= i < self.blocks.len() ==> #[trigger] self.blocks@[i].len() == BLOCK_BYTES
    }

    /// Number of blocks held.
    pub closed spec fn held(self) -> nat {
        self.blocks.len() as nat
    }

    /// An empty pool.
    pub fn new() -> (r: RamPump)
        ensures
            r.held() == 0,
    {
        RamPump { blocks: Vec::new() }
    }

    /// Number of blocks held.
    pub fn len(&self) -> (r: usize)
        ensures
            r == self.held(),
            r <= MAX_BLOCKS,
    {
        proof { use_type_invariant(self); }
        self.blocks.len()
    }

    /// MiB held.
    pub fn mb(&self) -> (r: usize)
        ensures
            r == self.held() * BLOCK_MB,
    {
        proof { use_type_invariant(self); }
        self.blocks.len() * BLOCK_MB
    }

    /// Whether no block is held.
    pub fn is_empty(&self) -> (r: bool)
        ensures
            r == (self.held() == 0),
    {
        self.blocks.len() == 0
    }

    /// Allocates one block with every 4 KiB page written.
    pub fn push_block(&mut self)
        requires
            old(self).held() < MAX_BLOCKS,
        ensures
            final(self).held() == old(self).held() + 1,
    {
        proof { use_type_invariant(&*self); }
        let mut v: Vec<u8> = vec![0u8; BLOCK_BYTES];
        let mut page: usize = 0;
        while page < BLOCK_BYTES
            invariant
                v.len() == BLOCK_BYTES,
                page <= BLOCK_BYTES,
                page % 4096 == 0,
            decreases BLOCK_BYTES - page,
        {
            v.set(page, 1);
            page = page + 4096;
        }
        let v = keep_block(v);
        assert(v.len() == BLOCK_BYTES);
        let mut blocks: Vec<Vec<u8>> = Vec::new();
        std::mem::swap(&mut blocks, &mut self.blocks);
        blocks.push(v);
        self.blocks = blocks;
    }

    /// Frees the most recent block, if any.
    pub fn pop_block(&mut self)
        ensures
            final(self).held() == if old(self).held() == 0 { 0 } else { (old(self).held() - 1) as nat },
    {
        proof { use_type_invariant(&*self); }
        let mut blocks: Vec<Vec<u8>> = Vec::new();
        std::mem::swap(&mut blocks, &mut self.blocks);
        let _ = blocks.pop();
        self.blocks = blocks;
    }
}

// ---- configuration reload -----------------------------------------------------

/// What a reload attempt did.
#[derive(PartialEq, Eq, Structural, Debug, Clone, Copy)]
pub enum ReloadOutcome {
    /// New settings were taken.
    Reloaded,
    /// The file could not be read; the previous settings stay and a warning is due.
    Warned,
    /// Nothing changed (same settings, or an error that was already reported).
    Unchanged,
}

/// Hot reload: takes the freshly loaded settings when they differ; when loading
/// failed, keeps the previous settings and warns once until a load succeeds again.
pub fn reload_step(cur: &mut Config, warn_reload: &mut bool, loaded: Option<Config>) -> (r: ReloadOutcome)
    ensures
        match loaded {
            Some(next) => if next@ != old(cur)@ {
                &&& r == ReloadOutcome::Reloaded
                &&& final(cur)@ == next@
                &&& *final(warn_reload)
            } else {
                &&& r == ReloadOutcome::Unchanged
                &&& final(cur)@ == old(cur)@
                &&& *final(warn_reload) == *old(warn_reload)
            },
            None => {
                &&& final(cur)@ == old(cur)@
                &&& r == (if *old(warn_reload) { ReloadOutcome::Warned } else { ReloadOutcome::Unchanged })
                &&& !*final(warn_reload)
            },
        },
{
    match loaded {
        Some(next) => {
            if !next.same(cur) {
                *cur = next;
                *warn_reload = true;
                ReloadOutcome::Reloaded
            } else {
                ReloadOutcome::Unchanged
            }
        },
        None => {
            if *warn_reload {
                *warn_reload = false;
                ReloadOutcome::Warned
            } else {
                ReloadOutcome::Unchanged
            }
        },
    }
}

} // verus!
