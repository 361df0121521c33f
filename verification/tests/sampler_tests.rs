use kim_temp::aggregate::{SensorReading, ValidRange};
use kim_temp::key::SensorKey;
use kim_temp::sampler::{
    fast_metrics, CadenceError, FastMetrics, NextStep, Sampler, SlowMetrics, DEFAULT_SLOW_PERIOD,
    DEFAULT_TICK_MS,
};
use kim_temp::work::WorkUnit;
use kim_temp::zone::ClassificationTable;

fn fast(total: i64) -> FastMetrics {
    FastMetrics {
        cpu_temp: Some(40_000 + total),
        gpu_temp: None,
        mem_temp: None,
        ssd_temp: None,
        bat_temp: None,
        total_power: Some(total),
        residual_power: total as i128,
    }
}

fn slow(tag: i32) -> SlowMetrics {
    SlowMetrics {
        battery_pct: tag,
        charging: tag % 2 == 0,
        mem_free_pct: 100 - tag,
        cpu_mw: 10 * tag,
        gpu_mw: 20 * tag,
        ane_mw: 30 * tag,
        wakeups: 1000 * tag as i128,
        top_cpu: vec![WorkUnit { name: format!("unit{}", tag), cpu_time: 5_000, wakeups: 70_000 }],
        high_wakeups: vec![],
    }
}

fn reading(name: &str, value: i64) -> SensorReading {
    let b = name.as_bytes();
    SensorReading { key: SensorKey::from_bytes(b[0], b[1], b[2], b[3]), value }
}

#[test]
fn scenario_dual_cadence() {
    let mut sampler = Sampler::new(5, 1000).unwrap();
    let mut due = Vec::new();
    let mut records = Vec::new();
    for tick in 1..=6 {
        due.push(sampler.slow_due());
        // Something is offered on every tick; it counts only when due.
        sampler.tick(fast(tick), Some(slow(tick as i32)));
        records.push(sampler.latest().clone());
    }
    assert_eq!(due, [true, false, false, false, false, true]);
    assert_eq!(records[0].slow, slow(1));
    for tick in 2..=5 {
        assert_eq!(records[tick - 1].slow, records[0].slow);
        assert!(!records[tick - 1].slow_fresh);
    }
    assert_eq!(records[5].slow, slow(6));
    assert!(records[0].slow_fresh);
    assert!(records[5].slow_fresh);
    // The fast fields are of their own tick each time.
    for tick in 1..=6 {
        assert_eq!(records[tick - 1].fast, fast(tick as i64));
    }
}

#[test]
fn zero_period_is_refused() {
    assert_eq!(Sampler::new(0, 1000).err(), Some(CadenceError::ZeroPeriod));
    assert_eq!(Sampler::new(0, 0).err(), Some(CadenceError::ZeroPeriod));
    assert!(Sampler::new(1, 0).is_ok());
    assert!(Sampler::new(u32::MAX, u64::MAX).is_ok());
}

#[test]
fn new_sampler_is_blank_and_due() {
    let sampler = Sampler::new(DEFAULT_SLOW_PERIOD, DEFAULT_TICK_MS).unwrap();
    assert_eq!(sampler.period(), 5);
    assert_eq!(DEFAULT_TICK_MS, 1000);
    assert!(sampler.slow_due());
    assert_eq!(sampler.latest().slow, SlowMetrics::blank());
    assert!(!sampler.latest().slow_fresh);
    assert_eq!(sampler.latest().fast.total_power, None);
    assert_eq!(sampler.latest().fast.residual_power, 0);
    let blank = SlowMetrics::blank();
    assert_eq!(blank.battery_pct, 0);
    assert!(!blank.charging);
    assert!(blank.top_cpu.is_empty());
    assert!(blank.high_wakeups.is_empty());
}

#[test]
fn period_of_one_refreshes_every_tick() {
    let mut sampler = Sampler::new(1, 250).unwrap();
    for tick in 1..=4 {
        assert!(sampler.slow_due());
        let next = sampler.tick(fast(tick), Some(slow(tick as i32)));
        assert_eq!(next, NextStep::Wait(250));
        assert_eq!(sampler.latest().slow, slow(tick as i32));
        assert!(sampler.latest().slow_fresh);
    }
}

#[test]
fn single_shot_stops_after_one_tick() {
    let mut sampler = Sampler::single_shot();
    assert!(sampler.slow_due());
    assert_eq!(sampler.period(), 1);
    let next = sampler.tick(fast(1), Some(slow(1)));
    assert_eq!(next, NextStep::Stop);
    assert_eq!(sampler.latest().fast, fast(1));
    assert_eq!(sampler.latest().slow, slow(1));
    assert!(sampler.latest().slow_fresh);
}

#[test]
fn continuous_sampler_waits_one_tick() {
    let mut sampler = Sampler::new(5, 1000).unwrap();
    for tick in 1..=7 {
        assert_eq!(sampler.tick(fast(tick), None), NextStep::Wait(1000));
    }
}

#[test]
fn failed_slow_sample_keeps_the_last_good_values() {
    let mut sampler = Sampler::new(2, 1000).unwrap();
    sampler.tick(fast(1), Some(slow(1)));
    sampler.tick(fast(2), None);
    assert!(sampler.slow_due());
    // The slow channel is due and fails.
    sampler.tick(fast(3), None);
    assert_eq!(sampler.latest().slow, slow(1));
    assert!(!sampler.latest().slow_fresh);
    assert_eq!(sampler.latest().fast, fast(3));
    // It is asked again at the next due tick, not before.
    assert!(!sampler.slow_due());
    sampler.tick(fast(4), Some(slow(4)));
    assert_eq!(sampler.latest().slow, slow(1));
    assert!(sampler.slow_due());
    sampler.tick(fast(5), Some(slow(5)));
    assert_eq!(sampler.latest().slow, slow(5));
    assert!(sampler.latest().slow_fresh);
}

#[test]
fn first_slow_sample_may_fail() {
    let mut sampler = Sampler::new(3, 1000).unwrap();
    sampler.tick(fast(1), None);
    assert_eq!(sampler.latest().slow, SlowMetrics::blank());
    assert!(!sampler.latest().slow_fresh);
    assert!(!sampler.slow_due());
}

#[test]
fn fast_channel_of_one_poll() {
    let table = ClassificationTable::standard();
    let range = ValidRange { min: 0, max: 150_000 };
    let readings = [
        reading("Tp01", 45_000),
        reading("Tp02", 55_000),
        reading("Te03", 1_000_000),
        reading("Tg05", 61_500),
        reading("TB0T", 29_000),
        reading("TB1T", 30_001),
    ];
    let metrics =
        fast_metrics(&table, &readings, range, Some(12_500), &[Some(3_000), None, Some(500)]);
    assert_eq!(
        metrics,
        FastMetrics {
            cpu_temp: Some(50_000),
            gpu_temp: Some(61_500),
            mem_temp: None,
            ssd_temp: None,
            bat_temp: Some(29_500),
            total_power: Some(12_500),
            residual_power: 9_000,
        }
    );
    let dark = fast_metrics(&table, &[], range, None, &[]);
    assert_eq!(dark.cpu_temp, None);
    assert_eq!(dark.total_power, None);
    assert_eq!(dark.residual_power, 0);
}

#[test]
fn slow_metrics_are_assembled_with_the_summary() {
    let units = [
        WorkUnit { name: "editor".to_string(), cpu_time: 12_000, wakeups: 60_000 },
        WorkUnit { name: "kernel_task".to_string(), cpu_time: 90_000, wakeups: 400_000 },
        WorkUnit { name: "browser".to_string(), cpu_time: 30_000, wakeups: 10_000 },
    ];
    let slow = SlowMetrics::assemble(87, true, 42, 1_200, 300, 0, &units);
    assert_eq!(slow.battery_pct, 87);
    assert!(slow.charging);
    assert_eq!(slow.mem_free_pct, 42);
    assert_eq!((slow.cpu_mw, slow.gpu_mw, slow.ane_mw), (1_200, 300, 0));
    assert_eq!(slow.wakeups, 470_000);
    assert_eq!(slow.top_cpu, vec![units[2].clone(), units[0].clone()]);
    assert_eq!(slow.high_wakeups, vec![units[0].clone()]);
}
