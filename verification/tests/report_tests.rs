use streaming_nn::benchmark::TimeResult;
use streaming_nn::report::{
    csv_header, csv_row, result_file_name, result_line, result_rows, time_means_file_name,
    time_results_file_name, VALUES_PER_LINE,
};

#[test]
fn table_header_has_five_columns() {
    assert_eq!(csv_header(), "Samples,Runtime host,Runtime device,MM,Split");
    assert_eq!(csv_header().split(',').count(), 5);
}

#[test]
fn table_file_names() {
    assert_eq!(time_results_file_name(), "time_results.csv");
    assert_eq!(time_means_file_name(), "time_means.csv");
}

#[test]
fn table_row_layout() {
    let record = TimeResult {
        num_samples: 4096,
        runtime_host: 0.5f64.to_bits(),
        runtime_device: (-1.0f64).to_bits(),
        mm: false,
        split: true,
    };
    let host = format!("{}", f64::from_bits(record.runtime_host));
    let device = format!("{}", f64::from_bits(record.runtime_device));
    assert_eq!(csv_row(&record, &host, &device), "4096,0.5,-1,false,true");
    assert_eq!(
        csv_row(&record, &host, &device),
        format!(
            "{},{},{},{},{}",
            record.num_samples,
            f64::from_bits(record.runtime_host),
            f64::from_bits(record.runtime_device),
            record.mm,
            record.split
        )
    );
    let record = TimeResult { num_samples: 0, runtime_host: 0, runtime_device: 0, mm: true, split: false };
    assert_eq!(csv_row(&record, "0.001", "0.0004"), "0,0.001,0.0004,true,false");
}

#[test]
fn result_file_is_named_after_the_run_size() {
    assert_eq!(result_file_name(64), "result_64_samples.txt");
    assert_eq!(result_file_name(4194304), "result_4194304_samples.txt");
    assert_eq!(result_file_name(0), "result_0_samples.txt");
}

#[test]
fn results_stand_four_to_a_line() {
    assert_eq!(VALUES_PER_LINE, 4);
    let values: Vec<u32> = (1..=8).collect();
    assert_eq!(result_rows(&values), vec![[1, 2, 3, 4], [5, 6, 7, 8]]);
}

#[test]
fn results_that_do_not_fill_a_line_are_left_out() {
    assert_eq!(result_rows(&[1, 2, 3, 4, 5, 6, 7]), vec![[1, 2, 3, 4]]);
    assert_eq!(result_rows(&[1, 2, 3]), Vec::<[u32; 4]>::new());
    assert_eq!(result_rows(&[]), Vec::<[u32; 4]>::new());
}

#[test]
fn sixty_four_results_make_sixteen_lines() {
    let values: Vec<u32> = (0..64).collect();
    let rows = result_rows(&values);
    assert_eq!(rows.len(), 16);
    for (i, row) in rows.iter().enumerate() {
        for j in 0..4 {
            assert_eq!(row[j], values[4 * i + j]);
        }
    }
}

#[test]
fn result_line_separates_with_blanks() {
    assert_eq!(result_line("1", "2.5", "-3", "4e-5"), "1 2.5 -3 4e-5");
    assert_eq!(result_line("", "", "", ""), "   ");
}
