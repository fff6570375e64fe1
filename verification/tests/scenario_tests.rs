use streaming_nn::benchmark::{mean_groups, ProgramOptions, TimeResult};
use streaming_nn::coordinator::{iteration_plan, result_unit, setup_plan, Step};
use streaming_nn::error::Error;
use streaming_nn::registry::{bind_units, required_roles, Binding, DeviceInfo, Role};
use streaming_nn::report::{csv_header, csv_row, result_file_name, result_line, result_rows};
use streaming_nn::samples::SampleBuffers;
use streaming_nn::text::{collect_values, token_bytes, tokenize};
use streaming_nn::topology::{engine_slot, weight_file_name, NUM_WEIGHT_STREAMS};
use streaming_nn::transfer::{Direction, Parameter, TransferDescriptor};
use streaming_nn::weights::WeightPartition;
use streaming_nn::words::{decode, encode};

/// The text of a file of `count` numbers, eight to a line.
fn number_file(count: usize, first: f32) -> String {
    let mut text = String::new();
    for i in 0..count {
        text.push_str(&format!("{}", first + i as f32 * 0.25));
        text.push(if i % 8 == 7 { '\n' } else { ' ' });
    }
    text
}

/// Reads a file of numbers the way a caller of the library does.
fn read_numbers(text: &str) -> Result<Vec<u32>, Error> {
    let bytes = text.as_bytes();
    let parsed: Vec<Option<u32>> = tokenize(bytes)
        .into_iter()
        .map(|span| {
            String::from_utf8(token_bytes(bytes, span))
                .ok()
                .and_then(|word| word.parse::<f32>().ok())
                .map(|value| value.to_bits())
        })
        .collect();
    collect_values(&parsed)
}

/// Carries the steps out on a device that answers every job at once and
/// hands back, for every buffer it is to fill, the sample count as a float
/// in every word.
fn carry_out(steps: Vec<Step>, log: &mut Vec<String>) -> Vec<(Role, Vec<Vec<u8>>)> {
    let mut pending: Vec<(Role, Vec<Vec<u8>>)> = Vec::new();
    let mut released = Vec::new();
    for step in steps {
        match step {
            Step::Acquire { unit } => log.push(format!("acquire {:?}", unit)),
            Step::Start { unit, parameters } => {
                log.push(format!("start {:?}", unit));
                let mut count = 0u64;
                let mut back = Vec::new();
                for p in parameters {
                    match p {
                        Parameter::Single64(v) => count = v,
                        Parameter::Transfer(TransferDescriptor::Alloc {
                            data,
                            direction: Direction::FromDevice,
                            ..
                        })
                        | Parameter::Transfer(TransferDescriptor::Stream {
                            data,
                            direction: Direction::FromDevice,
                            ..
                        }) => {
                            let words = vec![(count as f32).to_bits(); data.len() / 4];
                            back.push(encode(&words));
                        }
                        Parameter::Transfer(_) => {}
                    }
                }
                pending.push((unit, back));
            }
            Step::Release { unit, .. } => {
                log.push(format!("release {:?}", unit));
                let at = pending.iter().position(|(u, _)| *u == unit).unwrap();
                released.push(pending.remove(at));
            }
        }
    }
    released
}

struct Outcome {
    records: Vec<TimeResult>,
    result_files: Vec<(String, Vec<String>)>,
    time_results: Vec<String>,
    time_means: Vec<String>,
    log: Vec<String>,
}

fn run(options: ProgramOptions, devices: &[DeviceInfo], streams: usize) -> Result<Outcome, Error> {
    assert!(options.is_valid());
    let max_samples = options.max_samples();

    let mut raw = Vec::new();
    for i in 0..NUM_WEIGHT_STREAMS {
        let _name = weight_file_name(engine_slot(i).unwrap());
        raw.push(read_numbers(&number_file(600, i as f32))?);
    }
    let weights = WeightPartition::from_raw(&raw);

    let buffers = if options.mm {
        let files: [Vec<u32>; 4] = [
            read_numbers(&number_file(streams / 4, 0.0))?,
            read_numbers(&number_file(streams / 4, 1.0))?,
            read_numbers(&number_file(streams / 4, 2.0))?,
            read_numbers(&number_file(streams / 4, 3.0))?,
        ];
        SampleBuffers::build_mapped(max_samples, &files)?
    } else {
        SampleBuffers::build_streaming(max_samples, &read_numbers(&number_file(streams, 0.0))?)
    };

    let binding = bind_units(devices, options.split)?;
    let mut log = Vec::new();
    carry_out(setup_plan(&weights, options.split)?, &mut log);

    let sizes = options.sample_sizes();
    let mut records = Vec::new();
    let mut result_files = Vec::new();
    for size in sizes.iter() {
        for iteration in 0..options.iterations {
            let released = carry_out(iteration_plan(&buffers, binding, *size), &mut log);
            records.push(options.record(*size, 0.002f64.to_bits(), 0.001f64.to_bits()));
            if options.keeps_results(iteration) {
                let unit = result_unit(binding);
                let (_, back) = released.iter().find(|(u, _)| *u == unit).unwrap();
                let values = decode(&back[0]);
                let lines: Vec<String> = result_rows(&values)
                    .iter()
                    .map(|row| {
                        let t: Vec<String> =
                            row.iter().map(|w| format!("{}", f32::from_bits(*w))).collect();
                        result_line(&t[0], &t[1], &t[2], &t[3])
                    })
                    .collect();
                result_files.push((result_file_name(*size), lines));
            }
        }
    }

    let table = |rows: &[TimeResult]| {
        let mut lines = vec![csv_header().to_string()];
        for r in rows {
            lines.push(csv_row(
                r,
                &format!("{}", f64::from_bits(r.runtime_host)),
                &format!("{}", f64::from_bits(r.runtime_device)),
            ));
        }
        lines
    };
    let mut means = Vec::new();
    for (k, group) in mean_groups(&sizes, &records).iter().enumerate() {
        let n = group.len() as f64;
        let host = group.iter().map(|r| f64::from_bits(r.runtime_host)).sum::<f64>() / n;
        let device = group.iter().map(|r| f64::from_bits(r.runtime_device)).sum::<f64>() / n;
        means.push(options.average(sizes[k], host.to_bits(), device.to_bits()));
    }
    Ok(Outcome {
        time_results: table(&records),
        time_means: table(&means),
        records,
        result_files,
        log,
    })
}

fn one_device() -> Vec<DeviceInfo> {
    vec![DeviceInfo { access_granted: true, units: required_roles(false) }]
}

fn two_devices() -> Vec<DeviceInfo> {
    vec![
        DeviceInfo {
            access_granted: true,
            units: vec![Role::PartitionInWeights, Role::StreamJoin, Role::PartitionInData],
        },
        DeviceInfo {
            access_granted: true,
            units: vec![Role::PartitionOutWeights, Role::StreamSplit, Role::PartitionOutData],
        },
    ]
}

#[test]
fn streaming_run_of_64_samples_on_one_device() {
    let options =
        ProgramOptions { num_samples: 64, mm: false, split: false, benchmark: false, iterations: 1 };
    let outcome = run(options, &one_device(), 4096).unwrap();

    assert_eq!(outcome.records.len(), 1);
    assert_eq!(outcome.records[0].num_samples, 64);
    assert!(!outcome.records[0].mm);
    assert!(!outcome.records[0].split);

    assert_eq!(outcome.result_files.len(), 1);
    let (name, lines) = &outcome.result_files[0];
    assert_eq!(name, "result_64_samples.txt");
    assert_eq!(lines.len(), 64 / 4);
    for line in lines {
        assert_eq!(line.split(' ').count(), 4);
        assert_eq!(line, "64 64 64 64");
    }

    assert_eq!(outcome.time_results.len(), 1 + 1);
    assert_eq!(outcome.time_results[0], "Samples,Runtime host,Runtime device,MM,Split");
    assert_eq!(outcome.time_results[1], "64,0.002,0.001,false,false");
    assert_eq!(outcome.time_means.len(), 1 + 1);
    assert_eq!(outcome.time_means[1], "64,0.002,0.001,false,false");

    assert_eq!(
        outcome.log,
        vec![
            "acquire WeightStreamer",
            "start WeightStreamer",
            "release WeightStreamer",
            "acquire DataStreamer",
            "start DataStreamer",
            "release DataStreamer",
        ]
    );
}

#[test]
fn input_of_4096_values_feeds_64_samples_exactly() {
    let values = read_numbers(&number_file(4096, 0.0)).unwrap();
    assert_eq!(values.len(), 64 * 64);
    let buffers = SampleBuffers::build_streaming(64, &values);
    assert_eq!(buffers.run_input(0, 64), encode(&values));
}

#[test]
fn repeated_runs_on_two_devices_start_output_before_input_every_time() {
    let options =
        ProgramOptions { num_samples: 64, mm: true, split: true, benchmark: false, iterations: 4 };
    let outcome = run(options, &two_devices(), 4096).unwrap();
    assert_eq!(outcome.records.len(), 4);
    assert!(outcome.records.iter().all(|r| f64::from_bits(r.runtime_device) == -1.0));
    let starts: Vec<&String> = outcome
        .log
        .iter()
        .filter(|l| *l == "start PartitionOutData" || *l == "start PartitionInData")
        .collect();
    assert_eq!(starts.len(), 8);
    for run in 0..4 {
        assert_eq!(starts[2 * run], "start PartitionOutData");
        assert_eq!(starts[2 * run + 1], "start PartitionInData");
    }
    assert_eq!(outcome.result_files.len(), 1);
    assert_eq!(outcome.time_results.len(), 1 + 4);
    assert_eq!(outcome.time_means.len(), 1 + 1);
    assert_eq!(outcome.time_means[1], "64,0.002,-1,true,true");
}

#[test]
fn unreadable_number_fails_before_any_device_is_touched() {
    assert_eq!(read_numbers("1.0 2.0 three 4.0 five"), Err(Error::ParseError { token: 2 }));
    assert_eq!(read_numbers("1.0 2.0\n3.0"), Ok(vec![1.0f32.to_bits(), 2.0f32.to_bits(), 3.0f32.to_bits()]));
}

#[test]
fn missing_unit_fails_the_run_before_any_job() {
    let options =
        ProgramOptions { num_samples: 64, mm: false, split: true, benchmark: false, iterations: 1 };
    let mut devices = two_devices();
    devices[1].units.retain(|r| *r != Role::PartitionOutData);
    assert_eq!(
        run(options, &devices, 4096).err(),
        Some(Error::MissingComputeUnit { role: Role::PartitionOutData })
    );
    assert_eq!(
        bind_units(&one_device(), true).err(),
        Some(Error::MissingComputeUnit { role: Role::PartitionInWeights })
    );
}

#[test]
fn single_binding_is_used_as_found() {
    assert_eq!(bind_units(&one_device(), false), Ok(Binding::Single { device: 0 }));
}
