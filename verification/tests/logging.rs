use ppk2tui::float::{Double, FloatUnit, Single};
use ppk2tui::logging::{format_row, samples_per_bucket, BucketLogger};

struct Native;

fn single(v: f32) -> Single {
    Single { bits: v.to_bits() }
}

fn value(v: Single) -> f32 {
    f32::from_bits(v.bits)
}

fn double(v: f64) -> Double {
    Double { bits: v.to_bits() }
}

fn wide(v: Double) -> f64 {
    f64::from_bits(v.bits)
}

impl FloatUnit for Native {
    fn single_from_count(&self, n: u64) -> Single {
        single(n as f32)
    }
    fn plus(&self, a: Single, b: Single) -> Single {
        single(value(a) + value(b))
    }
    fn minus(&self, a: Single, b: Single) -> Single {
        single(value(a) - value(b))
    }
    fn times(&self, a: Single, b: Single) -> Single {
        single(value(a) * value(b))
    }
    fn over(&self, a: Single, b: Single) -> Single {
        single(value(a) / value(b))
    }
    fn parse(&self, text: &str) -> Result<Single, String> {
        match text.parse::<f32>() {
            Ok(v) => Ok(single(v)),
            Err(e) => Err(e.to_string()),
        }
    }
    fn fixed(&self, v: Single, places: u8) -> String {
        format!("{:.*}", places as usize, value(v))
    }
    fn widen(&self, v: Single) -> Double {
        double(value(v) as f64)
    }
    fn narrow(&self, v: Double) -> Single {
        single(wide(v) as f32)
    }
    fn double_from_count(&self, n: u64) -> Double {
        double(n as f64)
    }
    fn wide_plus(&self, a: Double, b: Double) -> Double {
        double(wide(a) + wide(b))
    }
    fn wide_minus(&self, a: Double, b: Double) -> Double {
        double(wide(a) - wide(b))
    }
    fn wide_times(&self, a: Double, b: Double) -> Double {
        double(wide(a) * wide(b))
    }
    fn wide_over(&self, a: Double, b: Double) -> Double {
        double(wide(a) / wide(b))
    }
    fn decade(&self, v: Double) -> i32 {
        wide(v).log10().floor() as i32
    }
    fn power_of_ten(&self, exponent: i32) -> Double {
        double(10f64.powi(exponent))
    }
    fn ceiling(&self, v: Double) -> usize {
        wide(v).ceil() as usize
    }
    fn wide_fixed(&self, v: Double, places: u8) -> String {
        format!("{:.*}", places as usize, wide(v))
    }
}

/// The lines of a log: the header, a row for each full bucket, and the last one.
fn rows(samples: &[f32], per_bucket: u64) -> Vec<String> {
    let (mut log, header) = BucketLogger::new(per_bucket);
    let mut text = header;
    for &ua in samples {
        if let Some(row) = log.push(&Native, single(ua)) {
            text.push_str(&row);
        }
    }
    if let Some(row) = log.finish(&Native) {
        text.push_str(&row);
    }
    text.lines().map(str::to_string).collect()
}

#[test]
fn interval_converts_to_sample_count() {
    assert_eq!(samples_per_bucket(100_000), 10_000); // 100 ms default
    assert_eq!(samples_per_bucket(1_000), 100); // 1 ms
    assert_eq!(samples_per_bucket(300), 30); // a 300 µs burst
    assert_eq!(samples_per_bucket(10), 1); // one sample
    assert_eq!(samples_per_bucket(1), 1); // below the sample period
    assert_eq!(samples_per_bucket(0), 1); // never zero
}

#[test]
fn header_is_written_on_construction() {
    let (_, header) = BucketLogger::new(1);
    assert_eq!(
        header.lines().next().unwrap(),
        "elapsed_us,avg_ua,min_ua,max_ua,n_samples"
    );
    assert!(header.ends_with('\n'));
}

#[test]
fn per_sample_logging_steps_by_the_sample_period() {
    let r = rows(&[1.0f32, 2.0, 3.0], 1);
    assert_eq!(r[1], "0,1.000,1.000,1.000,1");
    assert_eq!(r[2], "10,2.000,2.000,2.000,1");
    assert_eq!(r[3], "20,3.000,3.000,3.000,1");
}

#[test]
fn bucket_aggregates_and_timestamps_from_sample_index() {
    // Two full buckets: a quiet one, then one containing a spike.
    let r = rows(&[1.0f32, 2.0, 3.0, 1.0, 100.0, 1.0], 3);
    assert_eq!(r[1], "0,2.000,1.000,3.000,3");
    // The spike survives in max even though avg dilutes it.
    assert_eq!(r[2], "30,34.000,1.000,100.000,3");
    assert_eq!(r.len(), 3, "no partial bucket expected");
}

#[test]
fn finish_emits_a_partial_bucket() {
    let r = rows(&[5.0, 7.0], 10);
    assert_eq!(r.len(), 2, "partial bucket should be flushed");
    assert_eq!(r[1], "0,6.000,5.000,7.000,2");
}

#[test]
fn a_300us_burst_is_resolved_at_10us_buckets() {
    // 30 samples of burst inside 1000 samples of idle: at the 100 ms
    // default the burst is one row's max, at 10 µs it is 30 distinct rows.
    let mut samples: Vec<f32> = Vec::new();
    for i in 0..1000 {
        samples.push(if (500..530).contains(&i) {
            15_000.0
        } else {
            3.0
        });
    }
    let all = rows(&samples, 1);
    let burst: Vec<&String> = all[1..]
        .iter()
        .filter(|r| r.contains("15000.000"))
        .collect();
    assert_eq!(
        burst.len(),
        30,
        "every burst sample should have its own row"
    );
    assert!(burst[0].starts_with("5000,"), "burst starts at 5000 µs");
}

#[test]
fn an_empty_bucket_size_counts_as_one() {
    let r = rows(&[4.0, 5.0], 0);
    assert_eq!(r.len(), 3);
    assert_eq!(r[2], "10,5.000,5.000,5.000,1");
}

#[test]
fn finishing_without_samples_gives_no_row() {
    assert_eq!(rows(&[], 7).len(), 1);
    assert_eq!(rows(&[1.0, 2.0], 2).len(), 2);
}

#[test]
fn batches_do_not_show_in_the_log() {
    let samples: Vec<Single> = (0..25).map(|k| single(k as f32 * 0.5 - 3.0)).collect();
    let (mut whole, _) = BucketLogger::new(4);
    let expected = whole.push_all(&Native, &samples);
    assert_eq!(expected.len(), 6);
    for cut in 0..=samples.len() {
        let (mut log, _) = BucketLogger::new(4);
        let mut got = log.push_all(&Native, &samples[..cut]);
        got.extend(log.push_all(&Native, &samples[cut..]));
        assert_eq!(got, expected);
        assert_eq!(log.finish(&Native), Some("240,9.000,9.000,9.000,1\n".to_string()));
    }
}

#[test]
fn rows_tile_the_stream() {
    let samples: Vec<Single> = (0..30).map(|k| single(k as f32)).collect();
    let (mut log, _) = BucketLogger::new(7);
    for (k, &ua) in samples.iter().enumerate() {
        let row = log.push(&Native, ua);
        assert_eq!(row.is_some(), (k + 1) % 7 == 0);
        if let Some(text) = row {
            let start = k + 1 - 7;
            let expected = format!(
                "{},{:.3},{:.3},{:.3},7\n",
                10 * start,
                start as f64 + 3.0,
                start as f32,
                k as f32
            );
            assert_eq!(text, expected);
        }
    }
}

#[test]
fn room_ends_where_the_timestamp_would_overflow() {
    let (log, _) = BucketLogger::new(1);
    assert!(log.has_room(u64::MAX / 10));
    assert!(!log.has_room(u64::MAX / 10 + 1));
}

#[test]
fn rows_are_put_together_from_their_fields() {
    assert_eq!(format_row(120, "a", "b", "c", 9), "120,a,b,c,9\n");
}

#[test]
fn each_row_describes_its_own_bucket() {
    let samples: Vec<f32> = (0..53).map(|k| ((k * 29) % 17) as f32 * 0.3 - 1.0).collect();
    let r = rows(&samples, 5);
    assert_eq!(r.len(), 1 + 53 / 5 + 1);
    for (j, bucket) in samples.chunks(5).enumerate() {
        let total: f64 = bucket.iter().map(|ua| *ua as f64).fold(0.0, |a, b| a + b);
        let expected = format!(
            "{},{:.3},{:.3},{:.3},{}",
            50 * j,
            total / bucket.len() as f64,
            bucket.iter().copied().fold(f32::INFINITY, f32::min),
            bucket.iter().copied().fold(f32::NEG_INFINITY, f32::max),
            bucket.len()
        );
        assert_eq!(r[j + 1], expected);
    }
}

#[test]
fn a_finished_log_counts_every_sample() {
    for n in 0..40usize {
        for per_bucket in 1..8u64 {
            let (mut log, _) = BucketLogger::new(per_bucket);
            let samples = vec![single(1.0); n];
            let mut all = log.push_all(&Native, &samples);
            let last = log.finish(&Native);
            assert_eq!(last.is_some(), n as u64 % per_bucket != 0);
            assert_eq!(log.finish(&Native), None);
            all.extend(last);
            let counted: usize = all
                .iter()
                .map(|row| row.trim_end().rsplit(',').next().unwrap().parse::<usize>().unwrap())
                .sum();
            assert_eq!(counted, n);
        }
    }
}
