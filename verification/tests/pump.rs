use systemhog::config::Config;
use systemhog::metrics::{CpuSample, MemInfo};
use systemhog::pump::{cpu_step, ram_batch, ram_step, reload_step, CpuChange, RamAction, RamPhase, RamPump, ReloadOutcome};

fn s(total: u64, idle: u64) -> CpuSample {
    CpuSample { total, idle }
}

#[test]
fn cpu_controller_steps() {
    // 40% busy between the samples
    let (a, b) = (s(100, 80), s(200, 140));
    assert_eq!(cpu_step(0, a, b, 10, 20), (0, CpuChange::Lowered)); // lowered from 0 stays 0
    assert_eq!(cpu_step(50, a, b, 10, 20), (30, CpuChange::Lowered)); // gap 20
    assert_eq!(cpu_step(50, a, b, 38, 45), (50, CpuChange::Within));
    assert_eq!(cpu_step(50, a, b, 43, 50), (55, CpuChange::Raised)); // gap 3 -> at least 5
    assert_eq!(cpu_step(90, a, b, 80, 90), (100, CpuChange::Raised)); // capped at 100
    assert_eq!(cpu_step(10, a, b, 100, 100), (40, CpuChange::Raised)); // gap 60 -> at most 30
    assert_eq!(cpu_step(20, a, a, 10, 20), (30, CpuChange::Raised)); // no ticks: usage 0
    assert_eq!(cpu_step(20, s(0, 0), s(3, 0), 10, 20), (0, CpuChange::Lowered)); // 100% busy, gap 80
    assert_eq!(cpu_step(20, s(0, 0), s(3, 1), 60, 70), (20, CpuChange::Within)); // 66.7%
    assert_eq!(cpu_step(20, s(0, 0), s(3, 1), 70, 80), (25, CpuChange::Raised)); // gap 3.3 -> 5
}

#[test]
fn ram_batches_never_flip() {
    let low = MemInfo { total_kb: 1_000_000, avail_kb: 990_000 }; // 1% used
    let high = MemInfo { total_kb: 1_000_000, avail_kb: 100_000 }; // 90% used
    let mut b = ram_batch();
    assert_eq!(ram_step(&mut b, Some(low), 10, false), RamAction::Push);
    assert_eq!((b.steps, b.phase), (1, RamPhase::Pushed));
    assert_eq!(ram_step(&mut b, Some(high), 10, true), RamAction::Stop);
    let mut c = ram_batch();
    assert_eq!(ram_step(&mut c, Some(high), 10, true), RamAction::Pop);
    assert_eq!(ram_step(&mut c, Some(low), 10, true), RamAction::Stop);
    assert_eq!(ram_step(&mut c, Some(high), 10, false), RamAction::Stop);
    assert_eq!(ram_step(&mut c, None, 10, true), RamAction::Stop);
    let mut d = ram_batch();
    for _ in 0..20 {
        assert_eq!(ram_step(&mut d, Some(low), 10, false), RamAction::Push);
    }
    assert_eq!(ram_step(&mut d, Some(low), 10, false), RamAction::Stop);
    // within a block of the target: nothing to do
    let near = MemInfo { total_kb: 1_000_000, avail_kb: 905_000 };
    assert_eq!(ram_step(&mut ram_batch(), Some(near), 10, true), RamAction::Stop);
}

#[test]
fn ram_pool_holds_blocks() {
    let mut p = RamPump::new();
    assert!(p.is_empty());
    p.push_block();
    p.push_block();
    assert_eq!(p.len(), 2);
    assert_eq!(p.mb(), 20);
    p.pop_block();
    assert_eq!(p.mb(), 10);
    p.pop_block();
    p.pop_block();
    assert!(p.is_empty());
}

#[test]
fn reload_keeps_good_settings() {
    let mut cur = Config::default();
    let mut warn = true;
    assert_eq!(reload_step(&mut cur, &mut warn, None), ReloadOutcome::Warned);
    assert!(!warn);
    assert_eq!(reload_step(&mut cur, &mut warn, None), ReloadOutcome::Unchanged);
    assert!(cur.same(&Config::default()));
    assert_eq!(reload_step(&mut cur, &mut warn, Some(Config::default())), ReloadOutcome::Unchanged);
    assert!(!warn);
    let mut next = Config::default();
    next.cpu_max = 40;
    assert_eq!(reload_step(&mut cur, &mut warn, Some(next)), ReloadOutcome::Reloaded);
    assert!(warn);
    assert_eq!(cur.cpu_max, 40);
}
