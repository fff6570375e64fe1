use streaming_nn::benchmark::{
    accepts_sample_count, mean_groups, records_of, sweep_sizes, ClockSource, ProgramOptions,
    TimeResult, ASSUMED_STREAM_CLOCK_HZ, BATCH_SIZE, MAX_SAMPLES_BENCHMARK, NOT_MEASURED,
};

fn options(num_samples: usize, mm: bool, split: bool, benchmark: bool, iterations: usize) -> ProgramOptions {
    ProgramOptions { num_samples, mm, split, benchmark, iterations }
}

fn record(num_samples: usize, host: f64) -> TimeResult {
    TimeResult {
        num_samples,
        runtime_host: host.to_bits(),
        runtime_device: (host / 2.0).to_bits(),
        mm: false,
        split: false,
    }
}

#[test]
fn constants() {
    assert_eq!(BATCH_SIZE, 32);
    assert_eq!(MAX_SAMPLES_BENCHMARK, 4 * 1024 * 1024);
    assert_eq!(ASSUMED_STREAM_CLOCK_HZ, 250_000_000);
    assert_eq!(NOT_MEASURED, (-1.0f64).to_bits());
    assert_eq!(f64::from_bits(NOT_MEASURED), -1.0);
}

#[test]
fn sample_count_must_be_whole_batches() {
    for n in [0usize, 32, 64, 4096, 4194304] {
        assert!(accepts_sample_count(n));
        assert!(options(n, false, false, false, 1).is_valid());
    }
    for n in [1usize, 31, 33, 48, 100, 4095] {
        assert!(!accepts_sample_count(n));
        assert!(!options(n, true, true, true, 1).is_valid());
    }
}

#[test]
fn benchmark_sweep_doubles_from_32_to_the_ceiling() {
    let sizes = sweep_sizes(4 * 1024 * 1024);
    assert_eq!(sizes.len(), 18);
    assert_eq!(sizes[0], 32);
    assert_eq!(sizes[1], 64);
    assert_eq!(sizes[2], 128);
    assert_eq!(sizes[17], 4194304);
    for k in 1..sizes.len() {
        assert_eq!(sizes[k], 2 * sizes[k - 1]);
    }
    assert_eq!(options(4096, false, false, true, 1).sample_sizes(), sizes);
}

#[test]
fn sweep_stops_below_the_ceiling() {
    assert_eq!(sweep_sizes(0), Vec::<usize>::new());
    assert_eq!(sweep_sizes(31), Vec::<usize>::new());
    assert_eq!(sweep_sizes(32), vec![32]);
    assert_eq!(sweep_sizes(63), vec![32]);
    assert_eq!(sweep_sizes(64), vec![32, 64]);
    assert_eq!(sweep_sizes(1000), vec![32, 64, 128, 256, 512]);
}

#[test]
fn sweep_up_to_the_largest_number_ends() {
    let sizes = sweep_sizes(usize::MAX);
    assert_eq!(sizes[0], 32);
    assert_eq!(*sizes.last().unwrap(), 1usize << (usize::BITS - 1));
    assert_eq!(sizes.len(), (usize::BITS - 5) as usize);
}

#[test]
fn plain_run_has_one_size() {
    assert_eq!(options(4096, false, false, false, 1).sample_sizes(), vec![4096]);
    assert_eq!(options(64, true, true, false, 5).sample_sizes(), vec![64]);
}

#[test]
fn largest_run() {
    assert_eq!(options(64, false, false, false, 1).max_samples(), 64);
    assert_eq!(options(64, false, false, true, 1).max_samples(), 4194304);
}

#[test]
fn results_are_kept_on_the_last_iteration() {
    let o = options(64, false, false, false, 3);
    assert!(!o.keeps_results(0));
    assert!(!o.keeps_results(1));
    assert!(o.keeps_results(2));
    assert!(!o.keeps_results(3));
    assert!(options(64, false, false, false, 1).keeps_results(0));
    assert!(!options(64, false, false, false, 0).keeps_results(0));
    assert!(!options(64, false, false, false, 0).keeps_results(usize::MAX));
}

#[test]
fn clock_depends_on_the_transfer_mode() {
    assert_eq!(options(64, true, false, false, 1).clock_source(), ClockSource::DesignFrequency);
    assert_eq!(
        options(64, false, false, false, 1).clock_source(),
        ClockSource::Fixed { hertz: 250_000_000 }
    );
}

#[test]
fn record_of_a_run_on_one_device_keeps_the_device_duration() {
    let r = options(64, true, false, false, 1).record(64, 0.5f64.to_bits(), 0.25f64.to_bits());
    assert_eq!(
        r,
        TimeResult {
            num_samples: 64,
            runtime_host: 0.5f64.to_bits(),
            runtime_device: 0.25f64.to_bits(),
            mm: true,
            split: false,
        }
    );
}

#[test]
fn record_of_a_run_on_two_devices_has_no_device_duration() {
    let r = options(64, false, true, false, 1).record(128, 0.5f64.to_bits(), 0.25f64.to_bits());
    assert_eq!(r.num_samples, 128);
    assert_eq!(f64::from_bits(r.runtime_host), 0.5);
    assert_eq!(f64::from_bits(r.runtime_device), -1.0);
    assert!(!r.mm);
    assert!(r.split);
}

#[test]
fn average_carries_the_modes_of_the_options() {
    let r = options(64, true, true, true, 1).average(256, 1.5f64.to_bits(), 2.5f64.to_bits());
    assert_eq!(
        r,
        TimeResult {
            num_samples: 256,
            runtime_host: 1.5f64.to_bits(),
            runtime_device: 2.5f64.to_bits(),
            mm: true,
            split: true,
        }
    );
}

#[test]
fn records_of_a_size_keep_their_order() {
    let records = vec![record(32, 1.0), record(64, 2.0), record(32, 3.0), record(128, 4.0), record(32, 5.0)];
    assert_eq!(records_of(&records, 32), vec![records[0], records[2], records[4]]);
    assert_eq!(records_of(&records, 64), vec![records[1]]);
    assert_eq!(records_of(&records, 256), Vec::<TimeResult>::new());
    assert_eq!(records_of(&[], 32), Vec::<TimeResult>::new());
}

#[test]
fn one_group_per_size() {
    let records = vec![record(32, 1.0), record(64, 2.0), record(32, 3.0), record(64, 4.0)];
    let groups = mean_groups(&[32, 64, 128], &records);
    assert_eq!(groups.len(), 3);
    assert_eq!(groups[0], vec![records[0], records[2]]);
    assert_eq!(groups[1], vec![records[1], records[3]]);
    assert_eq!(groups[2], Vec::<TimeResult>::new());
    assert_eq!(mean_groups(&[], &records), Vec::<Vec<TimeResult>>::new());
}

#[test]
fn benchmark_sweep_has_each_size_once_among_the_means() {
    let o = options(4096, false, false, true, 3);
    let sizes = o.sample_sizes();
    let mut records = Vec::new();
    for size in sizes.iter() {
        for it in 0..o.iterations {
            records.push(o.record(*size, (it as f64).to_bits(), 1.0f64.to_bits()));
        }
    }
    let groups = mean_groups(&sizes, &records);
    assert_eq!(groups.len(), 18);
    let mut means = Vec::new();
    for (k, group) in groups.iter().enumerate() {
        assert_eq!(group.len(), 3);
        assert!(group.iter().all(|r| r.num_samples == sizes[k]));
        let host: f64 = group.iter().map(|r| f64::from_bits(r.runtime_host)).sum::<f64>() / 3.0;
        means.push(o.average(sizes[k], host.to_bits(), 1.0f64.to_bits()));
    }
    assert_eq!(means.len(), 18);
    for k in 0..18 {
        assert_eq!(means[k].num_samples, 32usize << k);
        assert_eq!(means.iter().filter(|m| m.num_samples == sizes[k]).count(), 1);
        assert_eq!(f64::from_bits(means[k].runtime_host), 1.0);
    }
}
